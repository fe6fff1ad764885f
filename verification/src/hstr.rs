//! Decoding of on-disk shell history: plain newline-separated lines for one
//! dialect, and an escaped encoding with a reserved meta byte plus a
//! timestamp prefix for the other.

use vstd::prelude::*;
use vstd::string::StrSliceExecFns;
use crate::sort::{ranked, sort};

verus! {

/// The reserved escape byte of the escaped history encoding.
pub const ZSH_META: u8 = 0x83;

/// What decoding a byte sequence as UTF-8 yields.  Relied on below by the
/// wrapper around `String::from_utf8_lossy`: the result depends on the bytes
/// alone.
pub uninterp spec fn utf8_decoded(bytes: Seq<u8>) -> Seq<char>;

/// Relies on `String::from_utf8_lossy`: decodes the bytes as UTF-8, a pure
/// function of the byte sequence; never fails (invalid sequences become
/// replacement characters).
#[verifier::external_body]
fn decode_utf8(bytes: &Vec<u8>) -> (r: String)
    ensures
        r@ == utf8_decoded(bytes@),
{
    String::from_utf8_lossy(bytes).into_owned()
}

/// Removing the escapes: every meta byte is deleted and the byte after it is
/// recovered by XOR with 0x20; a meta byte with nothing after it is deleted.
pub open spec fn unmetafied(s: Seq<u8>) -> Seq<u8>
    decreases s.len(),
{
    if s.len() == 0 {
        Seq::empty()
    } else if s[0] == ZSH_META {
        if s.len() == 1 {
            Seq::empty()
        } else {
            seq![s[1] ^ 0x20] + unmetafied(s.subrange(2, s.len() as int))
        }
    } else {
        seq![s[0]] + unmetafied(s.subrange(1, s.len() as int))
    }
}

/// Remove the escaped-encoding meta bytes in a single forward pass.
pub fn unmetafy(bytes: &Vec<u8>) -> (r: Vec<u8>)
    ensures
        r@ == unmetafied(bytes@),
{
    let ghost b = bytes@;
    let mut out: Vec<u8> = Vec::new();
    let mut i: usize = 0;
    proof {
        assert(b.subrange(0, b.len() as int) =~= b);
        assert(Seq::<u8>::empty() + unmetafied(b) =~= unmetafied(b));
    }
    while i < bytes.len()
        invariant
            0 <= i <= bytes.len(),
            b == bytes@,
            unmetafied(b) == out@ + unmetafied(b.subrange(i as int, b.len() as int)),
        decreases bytes.len() - i,
    {
        let ghost rest = b.subrange(i as int, b.len() as int);
        if bytes[i] == ZSH_META {
            if i + 1 < bytes.len() {
                out.push(bytes[i + 1] ^ 0x20);
                proof {
                    assert(rest.subrange(2, rest.len() as int) =~= b.subrange(
                        i + 2,
                        b.len() as int,
                    ));
                    assert(rest[0] == b[i as int] && rest[1] == b[i + 1]);
                }
                i += 2;
            } else {
                proof {
                    assert(rest.len() == 1 && rest[0] == ZSH_META);
                }
                i += 1;
            }
        } else {
            out.push(bytes[i]);
            proof {
                assert(rest.subrange(1, rest.len() as int) =~= b.subrange(i + 1, b.len() as int));
                assert(rest[0] == b[i as int]);
            }
            i += 1;
        }
    }
    proof {
        assert(b.subrange(b.len() as int, b.len() as int) =~= Seq::<u8>::empty());
        assert(out@ =~= out@ + Seq::<u8>::empty());
    }
    out
}

/// Splitting a byte sequence on newline bytes: one more piece than there are
/// newlines, in order.
pub open spec fn split_newlines(s: Seq<u8>) -> Seq<Seq<u8>>
    decreases s.len(),
{
    if s.len() == 0 {
        seq![Seq::empty()]
    } else {
        let rest = split_newlines(s.drop_last());
        if s.last() == 10 {
            rest.push(Seq::empty())
        } else {
            rest.update(rest.len() - 1, rest.last().push(s.last()))
        }
    }
}

/// Each byte line decoded as UTF-8.
pub open spec fn decoded_of(lines: Seq<Seq<u8>>) -> Seq<Seq<char>> {
    lines.map_values(|l: Seq<u8>| utf8_decoded(l))
}

/// The lines of a byte stream, each decoded as UTF-8.
pub open spec fn decoded_lines(bytes: Seq<u8>) -> Seq<Seq<char>> {
    decoded_of(split_newlines(bytes))
}

/// Split on newlines and decode each line.
pub fn decode_lines(bytes: &Vec<u8>) -> (r: Vec<String>)
    ensures
        r.deep_view() == decoded_lines(bytes@),
{
    let ghost b = bytes@;
    let mut out: Vec<String> = Vec::new();
    let mut cur: Vec<u8> = Vec::new();
    let ghost mut done: Seq<Seq<u8>> = Seq::empty();
    let mut i: usize = 0;
    while i < bytes.len()
        invariant
            0 <= i <= bytes.len(),
            b == bytes@,
            split_newlines(b.subrange(0, i as int)) == done.push(cur@),
            out.deep_view() == decoded_of(done),
        decreases bytes.len() - i,
    {
        let ghost pre = b.subrange(0, i as int);
        let ghost pre2 = b.subrange(0, i + 1);
        proof {
            assert(pre2.drop_last() =~= pre);
            assert(pre2.last() == b[i as int]);
        }
        if bytes[i] == 10 {
            let ghost old_cur = cur@;
            let line = decode_utf8(&cur);
            let ghost old_out = out.deep_view();
            out.push(line);
            cur = Vec::new();
            proof {
                done = done.push(old_cur);
                assert(split_newlines(pre2) == split_newlines(pre).push(Seq::<u8>::empty()));
                assert(cur@ =~= Seq::<u8>::empty());
                assert(split_newlines(pre2) =~= done.push(cur@));
                assert(out.deep_view() =~= old_out.push(utf8_decoded(old_cur)));
                assert(out.deep_view() =~= decoded_of(done));
            }
        } else {
            let ghost old_cur = cur@;
            cur.push(bytes[i]);
            proof {
                let sp = split_newlines(pre);
                assert(cur@ =~= old_cur.push(b[i as int]));
                assert(sp.len() == done.len() + 1);
                assert(sp.last() == old_cur);
                assert(split_newlines(pre2) == sp.update(sp.len() - 1, sp.last().push(
                    b[i as int],
                )));
                assert(split_newlines(pre2) =~= done.push(cur@));
            }
        }
        i += 1;
    }
    let line = decode_utf8(&cur);
    out.push(line);
    proof {
        assert(b.subrange(0, b.len() as int) =~= b);
        assert(split_newlines(b) == done.push(cur@));
        assert(out.deep_view() =~= decoded_of(done).push(utf8_decoded(cur@)));
        assert(out.deep_view() =~= decoded_of(split_newlines(b)));
    }
    out
}

pub open spec fn is_digit(c: char) -> bool {
    48 <= c as u32 && c as u32 <= 57
}

/// The line starts with a timestamp prefix of the form `: <10 digits>:<1 digit>;`.
pub open spec fn has_timestamp_prefix(s: Seq<char>) -> bool {
    &&& s.len() >= 15
    &&& s[0] == ':'
    &&& s[1] == ' '
    &&& forall|i: int| 2 <= i < 12 ==> is_digit(#[trigger] s[i])
    &&& s[12] == ':'
    &&& is_digit(s[13])
    &&& s[14] == ';'
}

/// The line with its timestamp prefix removed, if it has one.
pub open spec fn stripped(s: Seq<char>) -> Seq<char> {
    if has_timestamp_prefix(s) {
        s.subrange(15, s.len() as int)
    } else {
        s
    }
}

fn is_digit_char(c: char) -> (r: bool)
    ensures
        r == is_digit(c),
{
    let u = c as u32;
    48 <= u && u <= 57
}

/// Strip the timestamp prefix from one decoded history line.
pub fn strip_timestamp(line: &String) -> (r: String)
    ensures
        r@ == stripped(line@),
{
    let s = line.as_str();
    let n = s.unicode_len();
    if n < 15 {
        return line.clone();
    }
    if s.get_char(0) != ':' || s.get_char(1) != ' ' || s.get_char(12) != ':' || s.get_char(14)
        != ';' {
        return line.clone();
    }
    if !is_digit_char(s.get_char(13)) {
        return line.clone();
    }
    let mut i: usize = 2;
    while i < 12
        invariant
            2 <= i <= 12,
            s@ == line@,
            n == s@.len(),
            n >= 15,
            forall|k: int| 2 <= k < i ==> is_digit(#[trigger] s@[k]),
        decreases 12 - i,
    {
        if !is_digit_char(s.get_char(i)) {
            return line.clone();
        }
        i += 1;
    }
    s.substring_char(15, n).to_owned()
}

/// The fully decoded escaped-dialect history: unescape the bytes, split into
/// lines, decode each, and strip timestamp prefixes.
pub open spec fn zsh_decoded(bytes: Seq<u8>) -> Seq<Seq<char>> {
    decoded_lines(unmetafied(bytes)).map_values(|l: Seq<char>| stripped(l))
}

/// Turn the raw bytes of an escaped-dialect history file into its list of
/// command lines.
pub fn process_history(bytes: &Vec<u8>) -> (r: Vec<String>)
    ensures
        r.deep_view() == zsh_decoded(bytes@),
{
    let unescaped = unmetafy(bytes);
    let lines = decode_lines(&unescaped);
    let ghost lv = lines.deep_view();
    let mut out: Vec<String> = Vec::new();
    let mut i: usize = 0;
    while i < lines.len()
        invariant
            0 <= i <= lines.len(),
            lv == lines.deep_view(),
            lv.len() == lines.len(),
            out.deep_view().len() == i,
            forall|k: int| 0 <= k < i ==> out.deep_view()[k] == stripped(#[trigger] lv[k]),
        decreases lines.len() - i,
    {
        let stripped_line = strip_timestamp(&lines[i]);
        out.push(stripped_line);
        i += 1;
    }
    proof {
        assert(out.deep_view() =~= lv.map_values(|l: Seq<char>| stripped(l)));
    }
    out
}

/// Compare two strings character by character.
pub fn str_eq(a: &str, b: &str) -> (r: bool)
    ensures
        r == (a@ == b@),
{
    let na = a.unicode_len();
    let nb = b.unicode_len();
    if na != nb {
        return false;
    }
    let mut i: usize = 0;
    while i < na
        invariant
            0 <= i <= na,
            na == a@.len(),
            na == b@.len(),
            forall|k: int| 0 <= k < i ==> a@[k] == b@[k],
        decreases na - i,
    {
        if a.get_char(i) != b.get_char(i) {
            return false;
        }
        i += 1;
    }
    proof {
        assert(a@ =~= b@);
    }
    true
}

/// The shell dialects whose history files can be decoded.
#[derive(Clone, Copy, Debug, PartialEq, Eq, Structural)]
pub enum Shell {
    Bash,
    Zsh,
}

impl Shell {
    pub fn from_str(string: &str) -> (r: Option<Shell>)
        ensures
            r == if string@ == "bash"@ {
                Some(Shell::Bash)
            } else if string@ == "zsh"@ {
                Some(Shell::Zsh)
            } else {
                None::<Shell>
            },
    {
        if str_eq(string, "bash") {
            Some(Shell::Bash)
        } else if str_eq(string, "zsh") {
            Some(Shell::Zsh)
        } else {
            None
        }
    }
}

/// Rank the decoded lines of a plain-dialect history file.
pub fn get_bash_history(bytes: &Vec<u8>) -> (r: Vec<String>)
    ensures
        ranked(decoded_lines(bytes@), r.deep_view()),
{
    let lines = decode_lines(bytes);
    sort(lines)
}

/// Rank the decoded lines of an escaped-dialect history file.
pub fn get_zsh_history(bytes: &Vec<u8>) -> (r: Vec<String>)
    ensures
        ranked(zsh_decoded(bytes@), r.deep_view()),
{
    let lines = process_history(bytes);
    sort(lines)
}

} // verus!
