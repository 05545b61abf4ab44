//! Decoding of a raw zsh history file: unmetafying the byte stream, decoding
//! it as UTF-8, splitting it into lines and stripping each line's timestamp
//! metadata (`: 1330648651:0;sudo reboot` reads `sudo reboot`).

use vstd::prelude::*;
use vstd::utf8::{decode_utf8, valid_utf8};
use crate::entries::views_of;

verus! {

/// The zsh Meta byte: in a metafied stream it marks the next byte as XORed
/// with 32.
pub const ZSH_META: u8 = 0x83;

/// The byte stream with zsh metafication undone, processed back to front as
/// the decoder does: each Meta byte is dropped and the byte that then takes
/// its place is XORed with 32.
pub open spec fn unmetafied(s: Seq<u8>) -> Seq<u8>
    decreases s.len(),
{
    if s.len() == 0 {
        s
    } else if s[0] == 0x83 {
        let t = unmetafied(s.drop_first());
        if t.len() > 0 {
            t.update(0, t[0] ^ 32)
        } else {
            t
        }
    } else {
        seq![s[0]] + unmetafied(s.drop_first())
    }
}

/// A stream that does not end in a Meta byte unmetafies to at least one byte.
proof fn lemma_unmetafied_nonempty(t: Seq<u8>)
    requires
        t.len() > 0,
        t.last() != 0x83,
    ensures
        unmetafied(t).len() > 0,
    decreases t.len(),
{
    if t[0] == 0x83 {
        lemma_unmetafied_nonempty(t.drop_first());
    }
}

/// Undo zsh metafication: drop each Meta byte and XOR the byte that follows
/// it with 32, scanning from the end of the stream. The stream must not end
/// in a Meta byte, which would leave that marker nothing to apply to.
pub fn zsh_unmetafy_history(bytes: Vec<u8>) -> (r: Vec<u8>)
    requires
        bytes@.len() == 0 || bytes@.last() != 0x83,
    ensures
        r@ == unmetafied(bytes@),
{
    let ghost orig = bytes@;
    let mut b = bytes;
    let mut i: usize = b.len();
    while i > 0
        invariant
            0 <= i <= orig.len(),
            orig.len() == 0 || orig.last() != 0x83,
            b@ == orig.take(i as int) + unmetafied(orig.skip(i as int)),
        decreases i,
    {
        i -= 1;
        let ghost pre = b@;
        let ghost tail = unmetafied(orig.skip(i as int + 1));
        proof {
            assert(pre[i as int] == orig[i as int]);
        }
        if b[i] == ZSH_META {
            proof {
                assert(i + 1 < orig.len());
                assert(orig.skip(i as int + 1).last() == orig.last());
                lemma_unmetafied_nonempty(orig.skip(i as int + 1));
            }
            b.remove(i);
            proof {
                assert(b@ =~= orig.take(i as int) + tail);
            }
            let x = b[i];
            b[i] = x ^ 32;
            proof {
                assert(orig.skip(i as int)[0] == orig[i as int]);
                assert(orig.skip(i as int).drop_first() =~= orig.skip(i as int + 1));
                assert(unmetafied(orig.skip(i as int)) == tail.update(0, tail[0] ^ 32));
                assert(b@ =~= orig.take(i as int) + unmetafied(orig.skip(i as int)));
            }
        } else {
            proof {
                assert(orig.skip(i as int)[0] == orig[i as int]);
                assert(orig.skip(i as int).drop_first() =~= orig.skip(i as int + 1));
                assert(unmetafied(orig.skip(i as int)) == seq![orig[i as int]] + tail);
                assert(b@ =~= orig.take(i as int) + unmetafied(orig.skip(i as int)));
            }
        }
    }
    proof {
        assert(b@ =~= unmetafied(orig));
    }
    b
}

/// An ASCII decimal digit.
pub open spec fn is_digit(c: char) -> bool {
    48 <= c as u32 <= 57
}

/// The line starts with zsh timestamp metadata: a colon, a space, ten
/// digits, a colon, one digit and a semicolon.
pub open spec fn has_timestamp_prefix(line: Seq<char>) -> bool {
    &&& line.len() >= 15
    &&& line[0] == ':'
    &&& line[1] == ' '
    &&& (forall|k: int| 2 <= k < 12 ==> is_digit(#[trigger] line[k]))
    &&& line[12] == ':'
    &&& is_digit(line[13])
    &&& line[14] == ';'
}

/// The line with its timestamp metadata removed, when it carries any.
pub open spec fn strip_timestamp(line: Seq<char>) -> Seq<char> {
    if has_timestamp_prefix(line) {
        line.skip(15)
    } else {
        line
    }
}

/// Index of the first newline in `t`, or its length when there is none.
pub open spec fn first_newline(t: Seq<char>) -> nat
    decreases t.len(),
{
    if t.len() == 0 {
        0
    } else if t[0] == '\n' {
        0
    } else {
        1 + first_newline(t.drop_first())
    }
}

proof fn lemma_first_newline(t: Seq<char>)
    ensures
        first_newline(t) <= t.len(),
        first_newline(t) < t.len() ==> t[first_newline(t) as int] == '\n',
        forall|j: int| 0 <= j < first_newline(t) ==> t[j] != '\n',
    decreases t.len(),
{
    if t.len() > 0 && t[0] != '\n' {
        lemma_first_newline(t.drop_first());
        assert forall|j: int| 0 <= j < first_newline(t) implies t[j] != '\n' by {
            if j > 0 {
                assert(t.drop_first()[j - 1] == t[j]);
            }
        }
    }
}

/// `first_newline` is the position of the newline that ends the first line.
proof fn lemma_first_newline_at(t: Seq<char>, k: int)
    requires
        0 <= k <= t.len(),
        forall|j: int| 0 <= j < k ==> t[j] != '\n',
        k < t.len() ==> t[k] == '\n',
    ensures
        first_newline(t) as int == if k < t.len() {
            k
        } else {
            t.len() as int
        },
    decreases t.len(),
{
    if t.len() > 0 && t[0] != '\n' {
        assert(k > 0);
        assert forall|j: int| 0 <= j < k - 1 implies t.drop_first()[j] != '\n' by {
            assert(t.drop_first()[j] == t[j + 1]);
        }
        assert(k - 1 < t.drop_first().len() ==> t.drop_first()[k - 1] == t[k]);
        lemma_first_newline_at(t.drop_first(), k - 1);
    }
}

/// A line without its trailing carriage return, as Rust's line iterator
/// yields it.
pub open spec fn chomp_cr(l: Seq<char>) -> Seq<char> {
    if l.len() > 0 && l.last() == '\r' {
        l.drop_last()
    } else {
        l
    }
}

/// The text split at newlines: each piece without a trailing carriage
/// return, and no piece after a terminating newline.
pub open spec fn line_split(t: Seq<char>) -> Seq<Seq<char>>
    decreases t.len(),
{
    if t.len() == 0 {
        Seq::empty()
    } else {
        let i = first_newline(t) as int;
        if i == t.len() {
            seq![chomp_cr(t)]
        } else if 0 <= i < t.len() {
            seq![chomp_cr(t.take(i))] + line_split(t.skip(i + 1))
        } else {
            Seq::empty()
        }
    }
}

/// Each line with its timestamp metadata stripped.
pub open spec fn stripped(ls: Seq<Seq<char>>) -> Seq<Seq<char>> {
    ls.map_values(|l: Seq<char>| strip_timestamp(l))
}

/// What the processed history text yields as entries: each line with its
/// timestamp stripped, and one empty entry for the terminating newline of
/// the last line.
pub open spec fn processed_lines(t: Seq<char>) -> Seq<Seq<char>> {
    stripped(line_split(t)).push(Seq::empty())
}

/// Whether the line starts with zsh timestamp metadata.
fn detect_timestamp_prefix(line: &str) -> (r: bool)
    ensures
        r == has_timestamp_prefix(line@),
{
    let n = line.unicode_len();
    if n < 15 {
        return false;
    }
    if line.get_char(0) != ':' {
        return false;
    }
    if line.get_char(1) != ' ' {
        return false;
    }
    let mut k: usize = 2;
    while k < 12
        invariant
            2 <= k <= 12,
            line@.len() >= 15,
            forall|j: int| 2 <= j < k ==> is_digit(#[trigger] line@[j]),
        decreases 12 - k,
    {
        let c = line.get_char(k);
        let u = c as u32;
        if u < 48 || u > 57 {
            return false;
        }
        k += 1;
    }
    if line.get_char(12) != ':' {
        return false;
    }
    let c13 = line.get_char(13);
    let u13 = c13 as u32;
    if u13 < 48 || u13 > 57 {
        return false;
    }
    if line.get_char(14) != ';' {
        return false;
    }
    true
}

/// The line with its timestamp metadata removed, as an owned entry.
fn strip_line(line: &str) -> (r: String)
    ensures
        r@ == strip_timestamp(line@),
{
    if detect_timestamp_prefix(line) {
        let n = line.unicode_len();
        let rest = line.substring_char(15, n);
        proof {
            assert(line@.subrange(15, line@.len() as int) =~= line@.skip(15));
        }
        rest.to_owned()
    } else {
        line.to_owned()
    }
}

/// The line without its trailing carriage return.
fn chomp_line(raw: &str) -> (r: &str)
    ensures
        r@ == chomp_cr(raw@),
{
    let n = raw.unicode_len();
    if n > 0 && raw.get_char(n - 1) == '\r' {
        let r = raw.substring_char(0, n - 1);
        proof {
            assert(raw@.subrange(0, raw@.len() - 1) =~= raw@.drop_last());
        }
        r
    } else {
        raw
    }
}

/// Split the text at newlines and strip each line's timestamp metadata.
fn split_stripped_lines(text: &str) -> (r: Vec<String>)
    ensures
        views_of(r@) == stripped(line_split(text@)),
{
    let ghost t = text@;
    let n = text.unicode_len();
    let mut r: Vec<String> = Vec::new();
    let mut start: usize = 0;
    let mut i: usize = 0;
    proof {
        assert(t.skip(0) =~= t);
        assert(views_of(r@) =~= Seq::<Seq<char>>::empty());
        assert(stripped(line_split(t)) =~= views_of(r@) + stripped(line_split(t.skip(0))));
    }
    while i < n
        invariant
            0 <= start <= i <= n,
            n == t.len(),
            t == text@,
            stripped(line_split(t)) == views_of(r@) + stripped(line_split(t.skip(start as int))),
            forall|j: int| start <= j < i ==> t[j] != '\n',
        decreases n - i,
    {
        let c = text.get_char(i);
        if c == '\n' {
            let raw = text.substring_char(start, i);
            let line = chomp_line(raw);
            let entry = strip_line(line);
            let ghost old_r = r@;
            r.push(entry);
            proof {
                let rest = t.skip(start as int);
                assert forall|j: int| 0 <= j < i - start implies rest[j] != '\n' by {
                    assert(rest[j] == t[j + start]);
                }
                assert(rest[i - start] == t[i as int]);
                lemma_first_newline_at(rest, i - start);
                assert(rest.take(i - start) =~= t.subrange(start as int, i as int));
                assert(rest.skip(i - start + 1) =~= t.skip(i as int + 1));
                assert(line_split(rest) == seq![chomp_cr(t.subrange(start as int, i as int))]
                    + line_split(t.skip(i as int + 1)));
                assert(stripped(seq![chomp_cr(t.subrange(start as int, i as int))]
                    + line_split(t.skip(i as int + 1))) =~= seq![
                    strip_timestamp(chomp_cr(t.subrange(start as int, i as int))),
                ] + stripped(line_split(t.skip(i as int + 1))));
                crate::entries::lemma_views_of_push(old_r, entry);
                assert(stripped(line_split(t)) =~= views_of(r@) + stripped(line_split(t.skip(
                    i as int + 1,
                ))));
            }
            start = i + 1;
        }
        i += 1;
    }
    if start < n {
        let raw = text.substring_char(start, n);
        let line = chomp_line(raw);
        let entry = strip_line(line);
        let ghost old_r = r@;
        r.push(entry);
        proof {
            let rest = t.skip(start as int);
            assert forall|j: int| 0 <= j < rest.len() implies rest[j] != '\n' by {
                assert(rest[j] == t[j + start]);
            }
            lemma_first_newline_at(rest, rest.len() as int);
            assert(rest =~= t.subrange(start as int, n as int));
            assert(line_split(rest) == seq![chomp_cr(rest)]);
            assert(stripped(seq![chomp_cr(rest)]) =~= seq![strip_timestamp(chomp_cr(rest))]);
            crate::entries::lemma_views_of_push(old_r, entry);
            assert(stripped(line_split(t)) =~= views_of(r@));
        }
    } else {
        proof {
            assert(t.skip(start as int).len() == 0);
            assert(stripped(line_split(t.skip(start as int))) =~= Seq::<Seq<char>>::empty());
            assert(stripped(line_split(t)) =~= views_of(r@));
        }
    }
    r
}

/// Relies on `String::from_utf8`: decoding succeeds exactly on valid UTF-8
/// and yields the decoded characters, a function of the bytes alone.
#[verifier::external_body]
fn utf8_to_string(bytes: Vec<u8>) -> (r: Option<String>)
    ensures
        r is Some <==> valid_utf8(bytes@),
        r is Some ==> r->Some_0@ == decode_utf8(bytes@),
{
    String::from_utf8(bytes).ok()
}

/// Decode a raw zsh history file into its entries: unmetafy the bytes,
/// decode them as UTF-8 (failing on a malformed file), split into lines and
/// strip each line's timestamp. The final newline of the file yields one
/// trailing empty entry, as splitting the decoded text at newlines does.
pub fn zsh_process_history(bytes: Vec<u8>) -> (r: Option<Vec<String>>)
    requires
        bytes@.len() == 0 || bytes@.last() != 0x83,
    ensures
        r is Some <==> valid_utf8(unmetafied(bytes@)),
        r is Some ==> views_of(r->Some_0@) == processed_lines(decode_utf8(unmetafied(bytes@))),
{
    let unmetafied_bytes = zsh_unmetafy_history(bytes);
    match utf8_to_string(unmetafied_bytes) {
        None => None,
        Some(text) => {
            let mut lines = split_stripped_lines(text.as_str());
            let ghost pre = lines@;
            let empty = String::new();
            lines.push(empty);
            proof {
                crate::entries::lemma_views_of_push(pre, empty);
                assert(views_of(lines@) =~= processed_lines(text@));
            }
            Some(lines)
        },
    }
}

} // verus!
