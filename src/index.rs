//! The index from original file names to the capture instants that sidecar
//! description files record.
use vstd::prelude::*;
use crate::timestamp::{civil_year_month, civil_year_month_of};

verus! {

/// The value of a run of decimal digits.
pub open spec fn digits_value(s: Seq<char>) -> int
    decreases s.len(),
{
    if s.len() == 0 {
        0
    } else {
        digits_value(s.drop_last()) * 10 + ((s.last() as u32) as int - 48)
    }
}

/// Every character of `s` is one of `0` to `9`.
pub open spec fn all_digits(s: Seq<char>) -> bool {
    forall|i: int| 0 <= i < s.len() ==> '0' <= #[trigger] s[i] && s[i] <= '9'
}

/// The `i64` that a text denotes under `i64::from_str`: an optional `+` or
/// `-`, then one or more decimal digits and nothing else, within range.
pub open spec fn decimal_i64(s: Seq<char>) -> Option<i64> {
    let signed = s.len() > 0 && (s[0] == '+' || s[0] == '-');
    let body = if signed { s.subrange(1, s.len() as int) } else { s };
    let magnitude = digits_value(body);
    let value = if signed && s[0] == '-' { -magnitude } else { magnitude };
    if body.len() == 0 || !all_digits(body) || value < i64::MIN || value > i64::MAX {
        None
    } else {
        Some(value as i64)
    }
}

proof fn lemma_digits_value_prefix(s: Seq<char>, k: int)
    requires
        all_digits(s),
        0 <= k <= s.len(),
    ensures
        0 <= digits_value(s.subrange(0, k)) <= digits_value(s),
    decreases s.len(),
{
    if s.len() == 0 {
        assert(s.subrange(0, k) =~= s);
    } else {
        let t = s.drop_last();
        assert(all_digits(t)) by {
            assert forall|i: int| 0 <= i < t.len() implies '0' <= #[trigger] t[i] && t[i] <= '9' by {
                assert(t[i] == s[i]);
            }
        }
        assert(s.last() == s[s.len() - 1]);
        lemma_digits_value_prefix(t, t.len() as int);
        assert(t.subrange(0, t.len() as int) =~= t);
        if k < s.len() {
            lemma_digits_value_prefix(t, k);
            assert(t.subrange(0, k) =~= s.subrange(0, k));
        } else {
            assert(s.subrange(0, k) =~= s);
        }
    }
}

/// Reads a decimal `i64` as `i64::from_str` does: an optional sign, then
/// digits only, within range.
pub fn parse_i64(s: &str) -> (r: Option<i64>)
    ensures
        r == decimal_i64(s@),
{
    let len = s.unicode_len();
    if len == 0 {
        return None;
    }
    let first = s.get_char(0);
    let signed = first == '+' || first == '-';
    let negative = first == '-';
    let start: usize = if signed { 1 } else { 0 };
    if start == len {
        assert(s@.subrange(1, len as int).len() == 0);
        return None;
    }
    let ghost body = if signed { s@.subrange(1, len as int) } else { s@ };
    assert(body =~= s@.subrange(start as int, len as int));
    let mut acc: u64 = 0;
    let mut j: usize = start;
    while j < len
        invariant
            len == s@.len(),
            len > 0,
            signed == (s@[0] == '+' || s@[0] == '-'),
            negative == (s@[0] == '-'),
            start <= j <= len,
            start == (if signed { 1usize } else { 0usize }),
            body == s@.subrange(start as int, len as int),
            body == (if signed {
                s@.subrange(1, len as int)
            } else {
                s@
            }),
            all_digits(body.subrange(0, j - start)),
            acc as int == digits_value(body.subrange(0, j - start)),
            acc <= 9223372036854775808u64,
        decreases len - j,
    {
        let k: usize = j - start;
        let c = s.get_char(j);
        assert(body[k as int] == c);
        if c < '0' || c > '9' {
            assert(!('0' <= body[k as int] && body[k as int] <= '9'));
            assert(!all_digits(body));
            return None;
        }
        let d: u64 = ((c as u32) - 48) as u64;
        let ghost next = body.subrange(0, k + 1 as int);
        assert(next.drop_last() =~= body.subrange(0, k as int));
        assert(next.last() == c);
        assert(digits_value(next) == acc * 10 + d);
        if acc > (9223372036854775808u64 - d) / 10 {
            assert(acc * 10 + d > 9223372036854775808u64) by (nonlinear_arith)
                requires
                    acc > (9223372036854775808u64 - d) / 10,
                    d <= 9,
            ;
            proof {
                if all_digits(body) {
                    lemma_digits_value_prefix(body, k + 1 as int);
                }
            }
            return None;
        }
        assert(acc * 10 + d <= 9223372036854775808u64) by (nonlinear_arith)
            requires
                acc <= (9223372036854775808u64 - d) / 10,
                d <= 9,
        ;
        assert(all_digits(next)) by {
            assert forall|i: int| 0 <= i < next.len() implies '0' <= #[trigger] next[i] && next[i] <= '9' by {
                if i < k {
                    assert(next[i] == body.subrange(0, k as int)[i]);
                }
            }
        }
        acc = acc * 10 + d;
        j = j + 1;
    }
    assert(body.subrange(0, len - start) =~= body);
    if negative {
        if acc == 9223372036854775808u64 {
            Some(i64::MIN)
        } else {
            Some(-(acc as i64))
        }
    } else if acc > 9223372036854775807u64 {
        None
    } else {
        Some(acc as i64)
    }
}

/// The string found in a JSON text by following `keys` from the top-level
/// object, as serde_json reads it; `None` where the text is not JSON or the
/// value there is missing or not a string.
pub uninterp spec fn json_str_at(text: Seq<char>, keys: Seq<Seq<char>>) -> Option<Seq<char>>;

/// Relies on `serde_json::from_str::<Value>`, on indexing a `Value` by key
/// (`Null` for a missing key) and on `Value::as_str`.
#[verifier::external_body]
fn json_field(text: &str, key: &str) -> (r: Option<String>)
    ensures
        match r {
            Some(v) => json_str_at(text@, seq![key@]) == Some(v@),
            None => json_str_at(text@, seq![key@]) is None,
        },
{
    let value: serde_json::Value = serde_json::from_str(text).ok()?;
    value[key].as_str().map(|v| v.to_string())
}

/// Relies on `serde_json::from_str::<Value>`, on indexing a `Value` by key
/// twice (`Null` for a missing key) and on `Value::as_str`.
#[verifier::external_body]
fn json_nested_field(text: &str, outer: &str, inner: &str) -> (r: Option<String>)
    ensures
        match r {
            Some(v) => json_str_at(text@, seq![outer@, inner@]) == Some(v@),
            None => json_str_at(text@, seq![outer@, inner@]) is None,
        },
{
    let value: serde_json::Value = serde_json::from_str(text).ok()?;
    value[outer][inner].as_str().map(|v| v.to_string())
}

/// The sidecar key of the original file name.
pub open spec fn title_key() -> Seq<char> {
    seq!['t', 'i', 't', 'l', 'e']
}

/// The sidecar key of the capture-time object.
pub open spec fn taken_time_key() -> Seq<char> {
    seq!['p', 'h', 'o', 't', 'o', 'T', 'a', 'k', 'e', 'n', 'T', 'i', 'm', 'e']
}

/// The key, inside the capture-time object, of the epoch-second text.
pub open spec fn timestamp_key() -> Seq<char> {
    seq!['t', 'i', 'm', 'e', 's', 't', 'a', 'm', 'p']
}

/// The `title` string and the `photoTakenTime.timestamp` string of a
/// sidecar text, where both are there.
pub open spec fn json_sidecar_fields(text: Seq<char>) -> Option<(Seq<char>, Seq<char>)> {
    match (
        json_str_at(text, seq![title_key()]),
        json_str_at(text, seq![taken_time_key(), timestamp_key()]),
    ) {
        (Some(title), Some(stamp)) => Some((title, stamp)),
        _ => None,
    }
}

/// Reads the title and the raw timestamp text of a sidecar.
pub fn sidecar_fields(text: &str) -> (r: Option<(String, String)>)
    ensures
        match r {
            Some((title, stamp)) => json_sidecar_fields(text@) == Some((title@, stamp@)),
            None => json_sidecar_fields(text@) is None,
        },
{
    proof {
        reveal_strlit("title");
        reveal_strlit("photoTakenTime");
        reveal_strlit("timestamp");
    }
    let title_name: &str = "title";
    let taken_name: &str = "photoTakenTime";
    let stamp_name: &str = "timestamp";
    assert(title_name@ =~= title_key());
    assert(taken_name@ =~= taken_time_key());
    assert(stamp_name@ =~= timestamp_key());
    let title = match json_field(text, title_name) {
        Some(t) => t,
        None => return None,
    };
    let stamp = match json_nested_field(text, taken_name, stamp_name) {
        Some(t) => t,
        None => return None,
    };
    Some((title, stamp))
}

/// The entry that a sidecar text contributes: its title and its timestamp,
/// where the timestamp is a decimal integer that names a representable
/// instant.
pub open spec fn sidecar_entry(text: Seq<char>) -> Option<(Seq<char>, i64)> {
    match json_sidecar_fields(text) {
        None => None,
        Some((title, stamp)) => match decimal_i64(stamp) {
            None => None,
            Some(secs) => if civil_year_month_of(secs) is Some {
                Some((title, secs))
            } else {
                None
            },
        },
    }
}

/// A sidecar whose timestamp field is not a decimal integer contributes no
/// entry, so the photo it names falls through to the later sources.
pub proof fn lemma_bad_timestamp_skipped(text: Seq<char>)
    requires
        json_sidecar_fields(text) matches Some((_, stamp)) && decimal_i64(stamp) is None,
    ensures
        sidecar_entry(text) is None,
{
}

/// Reads the entry of one sidecar text; `None` for a malformed one.
pub fn parse_sidecar(text: &str) -> (r: Option<(String, i64)>)
    ensures
        match r {
            Some((title, secs)) => sidecar_entry(text@) == Some((title@, secs)),
            None => sidecar_entry(text@) is None,
        },
{
    let (title, stamp) = match sidecar_fields(text) {
        Some(fields) => fields,
        None => return None,
    };
    let secs = match parse_i64(stamp.as_str()) {
        Some(secs) => secs,
        None => return None,
    };
    if civil_year_month(secs).is_none() {
        return None;
    }
    Some((title, secs))
}

/// Map from original file name to capture instant (epoch seconds); names
/// are compared exactly and each occurs once.
pub struct MetadataIndex {
    entries: Vec<(String, i64)>,
}

impl View for MetadataIndex {
    type V = Map<Seq<char>, i64>;

    closed spec fn view(&self) -> Map<Seq<char>, i64> {
        Map::new(
            |k: Seq<char>| exists|i: int| 0 <= i < self.entries@.len() && self.entries@[i].0@ == k,
            |k: Seq<char>|
                self.entries@[choose|i: int|
                    0 <= i < self.entries@.len() && self.entries@[i].0@ == k].1,
        )
    }
}

impl MetadataIndex {
    /// No name occurs twice.
    pub closed spec fn wf(&self) -> bool {
        forall|i: int, j: int|
            0 <= i < j < self.entries@.len() ==> self.entries@[i].0@ != self.entries@[j].0@
    }

    proof fn lemma_entry_value(&self, i: int)
        requires
            self.wf(),
            0 <= i < self.entries@.len(),
        ensures
            self@.contains_key(self.entries@[i].0@),
            self@[self.entries@[i].0@] == self.entries@[i].1,
    {
        let k = self.entries@[i].0@;
        assert(self@.contains_key(k));
        let j = choose|j: int| 0 <= j < self.entries@.len() && self.entries@[j].0@ == k;
        if j != i {
            if j < i {
                assert(self.entries@[j].0@ != self.entries@[i].0@);
            } else {
                assert(self.entries@[i].0@ != self.entries@[j].0@);
            }
        }
    }

    /// An empty index.
    pub fn new() -> (r: Self)
        ensures
            r.wf(),
            r@ == Map::<Seq<char>, i64>::empty(),
    {
        let r = MetadataIndex { entries: Vec::new() };
        assert(r@ =~= Map::<Seq<char>, i64>::empty());
        r
    }

    /// Position of the entry named `name`, if there is one.
    fn position(&self, name: &String) -> (r: Option<usize>)
        ensures
            match r {
                Some(i) => i < self.entries@.len() && self.entries@[i as int].0@ == name@,
                None => forall|i: int|
                    0 <= i < self.entries@.len() ==> self.entries@[i].0@ != name@,
            },
    {
        let mut i: usize = 0;
        while i < self.entries.len()
            invariant
                i <= self.entries@.len(),
                forall|j: int| 0 <= j < i ==> self.entries@[j].0@ != name@,
            decreases self.entries@.len() - i,
        {
            if self.entries[i].0 == *name {
                return Some(i);
            }
            i = i + 1;
        }
        None
    }

    /// The instant recorded for `name`, if any.
    pub fn lookup(&self, name: &str) -> (r: Option<i64>)
        requires
            self.wf(),
        ensures
            r == (if self@.contains_key(name@) {
                Some(self@[name@])
            } else {
                None
            }),
    {
        let key = name.to_string();
        match self.position(&key) {
            Some(i) => {
                proof {
                    self.lemma_entry_value(i as int);
                }
                Some(self.entries[i].1)
            },
            None => None,
        }
    }

    /// Records `secs` for `name`, replacing an earlier entry of that name.
    pub fn insert(&mut self, name: String, secs: i64)
        requires
            old(self).wf(),
        ensures
            final(self).wf(),
            final(self)@ == old(self)@.insert(name@, secs),
    {
        let ghost k = name@;
        let ghost mut at: int = 0;
        match self.position(&name) {
            Some(i) => {
                self.entries.set(i, (name, secs));
                proof {
                    at = i as int;
                }
            },
            None => {
                self.entries.push((name, secs));
                proof {
                    at = self.entries@.len() - 1;
                }
            },
        }
        assert(self.entries@[at].0@ == k);
        assert forall|i: int| 0 <= i < self.entries@.len() implies #[trigger] self@.contains_key(
            self.entries@[i].0@,
        ) by {}
        assert forall|key: Seq<char>| #[trigger] self@.contains_key(key) implies old(
            self,
        )@.insert(k, secs).contains_key(key) && self@[key] == old(self)@.insert(k, secs)[key] by {
            let j = choose|j: int| 0 <= j < self.entries@.len() && self.entries@[j].0@ == key;
            self.lemma_entry_value(j);
            if key != k {
                old(self).lemma_entry_value(j);
            }
        }
        assert forall|key: Seq<char>| #[trigger] old(self)@.insert(k, secs).contains_key(
            key,
        ) implies self@.contains_key(key) by {
            if key != k {
                let j = choose|j: int|
                    0 <= j < old(self).entries@.len() && old(self).entries@[j].0@ == key;
                assert(self.entries@[j].0@ == key);
            } else {
            }
        }
        assert(self@ =~= old(self)@.insert(k, secs));
    }

    /// Adds the entry of one sidecar text, if it has one; a malformed text
    /// leaves the index as it was. Returns whether an entry was added.
    pub fn add_sidecar(&mut self, text: &str) -> (r: bool)
        requires
            old(self).wf(),
        ensures
            final(self).wf(),
            r == sidecar_entry(text@) is Some,
            match sidecar_entry(text@) {
                Some((title, secs)) => final(self)@ == old(self)@.insert(title, secs),
                None => final(self)@ == old(self)@,
            },
    {
        match parse_sidecar(text) {
            Some((title, secs)) => {
                self.insert(title, secs);
                true
            },
            None => false,
        }
    }
}

} // verus!
