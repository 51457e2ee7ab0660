//! Where a file's copy goes: the dated directory, the extension bucket, and
//! the names tried in turn until one is free.
use vstd::prelude::*;
use vstd::string::*;
use crate::text::{
    all_ascii, ascii_lower, decimal_of, digit_chars, last_dot, lemma_last_dot_bounds, decimal_text, extension_of, join_path, join_spec, lowercase_of,
    signed_decimal_of, split_file_name, stem_of, to_lowercase,
};
use crate::timestamp::{civil_year_month, civil_year_month_of};

verus! {

/// The English name of a month number; `Unknown` outside 1 to 12.
pub open spec fn month_name_of(m: int) -> Seq<char> {
    if m == 1 {
        seq!['J', 'a', 'n', 'u', 'a', 'r', 'y']
    } else if m == 2 {
        seq!['F', 'e', 'b', 'r', 'u', 'a', 'r', 'y']
    } else if m == 3 {
        seq!['M', 'a', 'r', 'c', 'h']
    } else if m == 4 {
        seq!['A', 'p', 'r', 'i', 'l']
    } else if m == 5 {
        seq!['M', 'a', 'y']
    } else if m == 6 {
        seq!['J', 'u', 'n', 'e']
    } else if m == 7 {
        seq!['J', 'u', 'l', 'y']
    } else if m == 8 {
        seq!['A', 'u', 'g', 'u', 's', 't']
    } else if m == 9 {
        seq!['S', 'e', 'p', 't', 'e', 'm', 'b', 'e', 'r']
    } else if m == 10 {
        seq!['O', 'c', 't', 'o', 'b', 'e', 'r']
    } else if m == 11 {
        seq!['N', 'o', 'v', 'e', 'm', 'b', 'e', 'r']
    } else if m == 12 {
        seq!['D', 'e', 'c', 'e', 'm', 'b', 'e', 'r']
    } else {
        seq!['U', 'n', 'k', 'n', 'o', 'w', 'n']
    }
}

/// The English name of a month number; `Unknown` outside 1 to 12.
pub fn month_name(m: u32) -> (r: &'static str)
    ensures
        r@ == month_name_of(m as int),
{
    proof {
        reveal_strlit("January");
        reveal_strlit("February");
        reveal_strlit("March");
        reveal_strlit("April");
        reveal_strlit("May");
        reveal_strlit("June");
        reveal_strlit("July");
        reveal_strlit("August");
        reveal_strlit("September");
        reveal_strlit("October");
        reveal_strlit("November");
        reveal_strlit("December");
        reveal_strlit("Unknown");
    }
    match m {
        1 => "January",
        2 => "February",
        3 => "March",
        4 => "April",
        5 => "May",
        6 => "June",
        7 => "July",
        8 => "August",
        9 => "September",
        10 => "October",
        11 => "November",
        12 => "December",
        _ => "Unknown",
    }
}

/// The directory name that files without an extension share.
pub open spec fn no_ext_bucket() -> Seq<char> {
    seq!['n', 'o', '_', 'e', 'x', 't']
}

/// An extension in lower case: ASCII capitals lowered one for one, and
/// other text as `str::to_lowercase` gives it.
pub open spec fn lowered(e: Seq<char>) -> Seq<char> {
    if all_ascii(e) {
        ascii_lower(e)
    } else {
        lowercase_of(e)
    }
}

/// The bucket of a file name: its extension in lower case, or `no_ext`
/// where it has none.
pub open spec fn bucket_of(name: Seq<char>) -> Seq<char> {
    match extension_of(name) {
        Some(e) => lowered(e),
        None => no_ext_bucket(),
    }
}

/// Two names whose ASCII extensions differ only in letter case share a
/// bucket, and a name without an extension goes to the `no_ext` bucket.
pub proof fn lemma_bucket_ignores_case(a: Seq<char>, b: Seq<char>)
    ensures
        extension_of(a) is None ==> bucket_of(a) == no_ext_bucket(),
        (extension_of(a) matches Some(ea) && extension_of(b) matches Some(eb) && all_ascii(ea)
            && all_ascii(eb) && ascii_lower(ea) == ascii_lower(eb)) ==> bucket_of(a) == bucket_of(b),
{
}

/// The bucket directory name of a file name.
pub fn extension_bucket(name: &str) -> (r: String)
    ensures
        r@ == bucket_of(name@),
{
    let (_, ext) = split_file_name(name);
    match ext {
        Some(e) => to_lowercase(e.as_str()),
        None => {
            proof {
                reveal_strlit("no_ext");
            }
            "no_ext".to_string()
        },
    }
}

/// `<root>/<year>/<month name>/<bucket>` for a file name.
pub open spec fn target_dir_of(root: Seq<char>, year: int, month: int, name: Seq<char>) -> Seq<char> {
    join_spec(
        join_spec(join_spec(root, signed_decimal_of(year)), month_name_of(month)),
        bucket_of(name),
    )
}

/// The directory depends only on the root, the year, the month and the
/// bucket: files of one date whose ASCII extensions differ only in case
/// land in one directory.
pub proof fn lemma_same_date_same_bucket_same_dir(
    root: Seq<char>,
    year: int,
    month: int,
    a: Seq<char>,
    b: Seq<char>,
)
    requires
        bucket_of(a) == bucket_of(b) || (extension_of(a) matches Some(ea) && extension_of(b) matches Some(eb)
            && all_ascii(ea) && all_ascii(eb) && ascii_lower(ea) == ascii_lower(eb)),
    ensures
        target_dir_of(root, year, month, a) == target_dir_of(root, year, month, b),
{
    lemma_bucket_ignores_case(a, b);
}

/// The directory that a file named `name`, dated `year` and `month`, goes to.
pub fn target_dir(root: &str, year: i32, month: u32, name: &str) -> (r: String)
    ensures
        r@ == target_dir_of(root@, year as int, month as int, name@),
{
    let year_text = decimal_text(year as i64);
    let year_dir = join_path(root, year_text.as_str());
    let month_dir = join_path(year_dir.as_str(), month_name(month));
    let bucket = extension_bucket(name);
    join_path(month_dir.as_str(), bucket.as_str())
}

/// The directory that a file named `name`, dated at epoch second `secs`,
/// goes to; `None` where the instant has no calendar date.
pub fn destination_dir(root: &str, secs: i64, name: &str) -> (r: Option<String>)
    ensures
        match civil_year_month_of(secs) {
            Some((y, m)) => r matches Some(d) && d@ == target_dir_of(root@, y as int, m as int, name@),
            None => r is None,
        },
{
    match civil_year_month(secs) {
        Some((year, month)) => Some(target_dir(root, year, month, name)),
        None => None,
    }
}

/// The name tried at attempt `n`: the name itself first, then
/// `<stem>_<n>.<ext>`, or `<stem>_<n>` where the extension is missing or
/// empty.
pub open spec fn candidate_name_of(name: Seq<char>, n: nat) -> Seq<char> {
    if n == 0 {
        name
    } else {
        match extension_of(name) {
            Some(e) => if e.len() > 0 {
                stem_of(name) + seq!['_'] + decimal_of(n) + seq!['.'] + e
            } else {
                stem_of(name) + seq!['_'] + decimal_of(n)
            },
            None => stem_of(name) + seq!['_'] + decimal_of(n),
        }
    }
}

/// The file name tried at attempt `attempt` for a file named `name`.
pub fn candidate_name(name: &str, attempt: u64) -> (r: String)
    requires
        attempt <= i64::MAX,
    ensures
        r@ == candidate_name_of(name@, attempt as nat),
{
    if attempt == 0 {
        return name.to_string();
    }
    let (stem, ext) = split_file_name(name);
    let mut out = stem;
    out.append("_");
    let number = decimal_text(attempt as i64);
    out.append(number.as_str());
    proof {
        reveal_strlit("_");
        reveal_strlit(".");
    }
    match ext {
        Some(e) => {
            if e.as_str().unicode_len() > 0 {
                out.append(".");
                out.append(e.as_str());
            }
        },
        None => {},
    }
    assert(out@ =~= candidate_name_of(name@, attempt as nat));
    out
}

/// The path tried at attempt `attempt` in directory `dir`.
pub fn candidate_path(dir: &str, name: &str, attempt: u64) -> (r: String)
    requires
        attempt <= i64::MAX,
    ensures
        r@ == join_spec(dir@, candidate_name_of(name@, attempt as nat)),
{
    let file = candidate_name(name, attempt);
    join_path(dir, file.as_str())
}

proof fn lemma_decimal_nonempty(n: nat)
    ensures
        decimal_of(n).len() >= 1,
        n >= 10 ==> decimal_of(n).len() >= 2,
    decreases n,
{
    if n >= 10 {
        lemma_decimal_nonempty(n / 10);
    }
}

proof fn lemma_digits_distinct(i: int, j: int)
    requires
        0 <= i < 10,
        0 <= j < 10,
        digit_chars()[i] == digit_chars()[j],
    ensures
        i == j,
{
    let d = digit_chars();
    assert(d[0] == '0' && d[1] == '1' && d[2] == '2' && d[3] == '3' && d[4] == '4');
    assert(d[5] == '5' && d[6] == '6' && d[7] == '7' && d[8] == '8' && d[9] == '9');
}

proof fn lemma_decimal_injective(n: nat, m: nat)
    requires
        decimal_of(n) == decimal_of(m),
    ensures
        n == m,
    decreases n,
{
    lemma_decimal_nonempty(n);
    lemma_decimal_nonempty(m);
    if n < 10 && m < 10 {
        assert(decimal_of(n) == seq![digit_chars()[n as int]]);
        assert(decimal_of(m) == seq![digit_chars()[m as int]]);
        assert(decimal_of(n)[0] == digit_chars()[n as int]);
        assert(decimal_of(m)[0] == digit_chars()[m as int]);
        lemma_digits_distinct(n as int, m as int);
    } else if n >= 10 && m >= 10 {
        let dn = decimal_of(n);
        assert(dn.drop_last() =~= decimal_of(n / 10));
        assert(decimal_of(m).drop_last() =~= decimal_of(m / 10));
        lemma_decimal_injective(n / 10, m / 10);
        assert(dn.last() == digit_chars()[(n % 10) as int]);
        assert(decimal_of(m).last() == digit_chars()[(m % 10) as int]);
        lemma_digits_distinct((n % 10) as int, (m % 10) as int);
    }
}

proof fn lemma_numbered_longer(name: Seq<char>, n: nat)
    requires
        n > 0,
    ensures
        candidate_name_of(name, n).len() > name.len(),
{
    lemma_decimal_nonempty(n);
    if last_dot(name) > 0 {
        lemma_last_dot_bounds(name);
    }
}

/// Different attempts for one file in one directory try different paths,
/// so the names handed out for a name form a sequence without repeats.
pub proof fn lemma_candidates_distinct(dir: Seq<char>, name: Seq<char>, n: nat, m: nat)
    requires
        n != m,
    ensures
        join_spec(dir, candidate_name_of(name, n)) != join_spec(dir, candidate_name_of(name, m)),
{
    let a = candidate_name_of(name, n);
    let b = candidate_name_of(name, m);
    if a == b {
        if n == 0 {
            lemma_numbered_longer(name, m);
        } else if m == 0 {
            lemma_numbered_longer(name, n);
        } else {
            let stem = stem_of(name);
            let dn = decimal_of(n);
            let dm = decimal_of(m);
            let pre = stem + seq!['_'];
            let tail: Seq<char> = match extension_of(name) {
                Some(e) => if e.len() > 0 {
                    seq!['.'] + e
                } else {
                    Seq::empty()
                },
                None => Seq::empty(),
            };
            assert(a =~= pre + dn + tail);
            assert(b =~= pre + dm + tail);
            assert(dn.len() == dm.len());
            assert(dn =~= a.subrange(pre.len() as int, (pre.len() + dn.len()) as int));
            assert(dm =~= b.subrange(pre.len() as int, (pre.len() + dm.len()) as int));
            lemma_decimal_injective(n, m);
        }
    }
    let pa = join_spec(dir, a);
    let pb = join_spec(dir, b);
    if pa == pb {
        let k: int = if dir.len() == 0 || dir.last() == '/' { dir.len() as int } else { dir.len() + 1 as int };
        assert(a =~= pa.subrange(k, pa.len() as int));
        assert(b =~= pb.subrange(k, pb.len() as int));
    }
}

} // verus!
