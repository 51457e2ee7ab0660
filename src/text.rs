//! Decimal rendering and the splitting and joining of path text.
use vstd::prelude::*;
use vstd::string::*;

verus! {

/// The ten decimal digits, in order.
pub open spec fn digit_chars() -> Seq<char> {
    seq!['0', '1', '2', '3', '4', '5', '6', '7', '8', '9']
}

/// The decimal text of a natural number, without leading zeros.
pub open spec fn decimal_of(n: nat) -> Seq<char>
    decreases n,
{
    if n < 10 {
        seq![digit_chars()[n as int]]
    } else {
        decimal_of(n / 10) + seq![digit_chars()[(n % 10) as int]]
    }
}

/// The decimal text of an integer, with a leading `-` when it is negative.
pub open spec fn signed_decimal_of(n: int) -> Seq<char> {
    if n < 0 {
        seq!['-'] + decimal_of((-n) as nat)
    } else {
        decimal_of(n as nat)
    }
}

fn push_decimal(n: u64, out: &mut String)
    ensures
        final(out)@ == old(out)@ + decimal_of(n as nat),
    decreases n,
{
    if n >= 10 {
        push_decimal(n / 10, out);
    }
    let d: usize = (n % 10) as usize;
    let digits: &str = "0123456789";
    proof {
        reveal_strlit("0123456789");
    }
    let piece = digits.substring_char(d, d + 1);
    assert(piece@ =~= seq![digit_chars()[d as int]]);
    out.append(piece);
    assert(out@ =~= old(out)@ + decimal_of(n as nat));
}

/// Renders `n` in decimal, as Rust's `Display` for integers does.
pub fn decimal_text(n: i64) -> (r: String)
    ensures
        r@ == signed_decimal_of(n as int),
{
    let mut out = String::new();
    if n < 0 {
        out.append("-");
        proof {
            reveal_strlit("-");
        }
        let magnitude: u64 = if n == i64::MIN {
            9223372036854775808u64
        } else {
            (-n) as u64
        };
        push_decimal(magnitude, &mut out);
        assert(out@ =~= signed_decimal_of(n as int));
    } else {
        push_decimal(n as u64, &mut out);
        assert(out@ =~= signed_decimal_of(n as int));
    }
    out
}

/// Index of the last `.` in `s`, or -1 where there is none.
pub open spec fn last_dot(s: Seq<char>) -> int
    decreases s.len(),
{
    if s.len() == 0 {
        -1
    } else if s.last() == '.' {
        s.len() - 1
    } else {
        last_dot(s.drop_last())
    }
}

pub proof fn lemma_last_dot_bounds(s: Seq<char>)
    ensures
        -1 <= last_dot(s) < s.len(),
        last_dot(s) >= 0 ==> s[last_dot(s)] == '.',
    decreases s.len(),
{
    if s.len() > 0 && s.last() != '.' {
        lemma_last_dot_bounds(s.drop_last());
    }
}

/// The extension of a file name: what follows its last `.`, where that dot
/// is not the name's first character.
pub open spec fn extension_of(name: Seq<char>) -> Option<Seq<char>> {
    let i = last_dot(name);
    if i <= 0 {
        None
    } else {
        Some(name.subrange(i + 1, name.len() as int))
    }
}

/// The stem of a file name: the name without its extension and that dot.
pub open spec fn stem_of(name: Seq<char>) -> Seq<char> {
    let i = last_dot(name);
    if i <= 0 {
        name
    } else {
        name.subrange(0, i)
    }
}

/// Splits a file name into stem and extension, as `Path::file_stem` and
/// `Path::extension` do for a single path component.
pub fn split_file_name(name: &str) -> (r: (String, Option<String>))
    ensures
        r.0@ == stem_of(name@),
        match r.1 {
            Some(e) => extension_of(name@) == Some(e@),
            None => extension_of(name@) is None,
        },
{
    let len = name.unicode_len();
    let mut dot: usize = 0;
    let mut has_dot = false;
    let mut j: usize = 0;
    while j < len
        invariant
            len == name@.len(),
            j <= len,
            has_dot ==> dot as int == last_dot(name@.subrange(0, j as int)),
            !has_dot ==> last_dot(name@.subrange(0, j as int)) == -1,
        decreases len - j,
    {
        assert(name@.subrange(0, j as int + 1).drop_last() =~= name@.subrange(0, j as int));
        assert(name@.subrange(0, j as int + 1).last() == name@[j as int]);
        if name.get_char(j) == '.' {
            dot = j;
            has_dot = true;
        }
        j = j + 1;
    }
    assert(name@.subrange(0, len as int) =~= name@);
    proof {
        lemma_last_dot_bounds(name@);
    }
    if !has_dot || dot == 0 {
        (name.to_string(), None)
    } else {
        let d = dot;
        let stem = name.substring_char(0, d).to_string();
        let ext = name.substring_char(d + 1, len).to_string();
        (stem, Some(ext))
    }
}

/// `dir` followed by `part`, with one `/` between them where `dir` is not
/// empty and does not end in one already (the rule of `Path::join` for a
/// relative part).
pub open spec fn join_spec(dir: Seq<char>, part: Seq<char>) -> Seq<char> {
    if dir.len() == 0 || dir.last() == '/' {
        dir + part
    } else {
        dir + seq!['/'] + part
    }
}

/// Joins a relative path component onto a directory.
pub fn join_path(dir: &str, part: &str) -> (r: String)
    ensures
        r@ == join_spec(dir@, part@),
{
    let len = dir.unicode_len();
    let mut out = dir.to_string();
    if len > 0 && dir.get_char(len - 1) != '/' {
        out.append("/");
        proof {
            reveal_strlit("/");
        }
    }
    out.append(part);
    assert(out@ =~= join_spec(dir@, part@));
    out
}

/// `s` with each ASCII capital letter replaced by its small letter.
pub open spec fn ascii_lower(s: Seq<char>) -> Seq<char> {
    s.map_values(|c: char| if 'A' <= c && c <= 'Z' { ((c as u32) + 32) as char } else { c })
}

/// Every character of `s` is ASCII.
pub open spec fn all_ascii(s: Seq<char>) -> bool {
    forall|i: int| 0 <= i < s.len() ==> (s[i] as u32) < 128
}

/// What `str::to_lowercase` returns for `s`.
pub uninterp spec fn lowercase_of(s: Seq<char>) -> Seq<char>;

/// Relies on `str::to_lowercase`: the result depends on the characters
/// alone, and on ASCII text it lowers the capital letters A to Z and keeps
/// every other character (Unicode lowercase mapping restricted to ASCII).
#[verifier::external_body]
pub(crate) fn to_lowercase(s: &str) -> (r: String)
    ensures
        r@ == lowercase_of(s@),
        all_ascii(s@) ==> r@ == ascii_lower(s@),
{
    s.to_lowercase()
}

} // verus!
