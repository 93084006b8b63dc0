//! The secrets held in memory, and the line format they are stored in:
//! `key:value:timestamp`, or `b64:KEY:VALUE:timestamp` with key and value in
//! base64 when either holds a `:`.
use crate::order::{compare_keys, key_lt, lemma_key_lt_irreflexive, lemma_key_lt_transitive, lemma_key_lt_asymmetric, KeyOrder};
use crate::codec::{lowercase_text, string_from_chars, to_lowercase};
use crate::format::{line_restores, parse_record, parse_record_line, record_line, record_to_line, restorable, LineFault, RecordView};
use crate::text::{chars_contain, chars_of, contains_text, copy_range, is_plain_line, join_lines, join_with_newlines, lemma_lines_of_join, lines_of, split_lines, trim, trim_bounds};
use crate::timestamp::{read_from_clock, ClockError, Timestamp};
use vstd::prelude::*;

verus! {

/// What the secrets map a key to: the value and the timestamp `(secs, nanos)`.
pub type SecretView = (Seq<char>, (i64, u32));

/// One stored secret and the time it was last set.
#[derive(Debug, PartialEq, Eq)]
pub struct Entry {
    pub key: String,
    pub value: String,
    pub timestamp: Timestamp,
}

impl View for Entry {
    type V = RecordView;

    open spec fn view(&self) -> RecordView {
        (self.key@, self.value@, self.timestamp@)
    }
}

impl Clone for Entry {
    fn clone(&self) -> (res: Self)
        ensures
            res@ == self@,
    {
        Entry { key: self.key.clone(), value: self.value.clone(), timestamp: self.timestamp }
    }
}

/// Records in strictly increasing key order (so no key occurs twice).
pub open spec fn records_sorted(rs: Seq<RecordView>) -> bool {
    forall|i: int, j: int| 0 <= i < j < rs.len() ==> key_lt(#[trigger] rs[i].0, #[trigger] rs[j].0)
}

/// Some record has key `k`.
pub open spec fn has_key(rs: Seq<RecordView>, k: Seq<char>) -> bool {
    exists|i: int| 0 <= i < rs.len() && #[trigger] rs[i].0 == k
}

/// An index of a record with key `k`, where there is one.
pub open spec fn key_index(rs: Seq<RecordView>, k: Seq<char>) -> int {
    choose|i: int| 0 <= i < rs.len() && #[trigger] rs[i].0 == k
}

/// The map from each key of `rs` to the value and timestamp of its record.
pub open spec fn records_map(rs: Seq<RecordView>) -> Map<Seq<char>, SecretView> {
    Map::new(
        |k: Seq<char>| has_key(rs, k),
        |k: Seq<char>| (rs[key_index(rs, k)].1, rs[key_index(rs, k)].2),
    )
}

/// In sorted records, the record at `i` is what the map gives for its key.
pub proof fn lemma_records_map_at(rs: Seq<RecordView>, i: int)
    requires
        records_sorted(rs),
        0 <= i < rs.len(),
    ensures
        records_map(rs).contains_key(rs[i].0),
        records_map(rs)[rs[i].0] == (rs[i].1, rs[i].2),
{
    let k = rs[i].0;
    assert(has_key(rs, k));
    let j = key_index(rs, k);
    if j < i {
        assert(key_lt(rs[j].0, rs[i].0));
        lemma_key_lt_irreflexive(k);
    } else if j > i {
        assert(key_lt(rs[i].0, rs[j].0));
        lemma_key_lt_irreflexive(k);
    }
}

/// Inserting a record at the place that its key takes in the order keeps the
/// records sorted, and adds the key to the map.
pub proof fn lemma_insert_record(rs: Seq<RecordView>, p: int, r: RecordView)
    requires
        records_sorted(rs),
        0 <= p <= rs.len(),
        forall|i: int| 0 <= i < p ==> key_lt(#[trigger] rs[i].0, r.0),
        p < rs.len() ==> key_lt(r.0, rs[p].0),
    ensures
        records_sorted(rs.insert(p, r)),
        records_map(rs.insert(p, r)) == records_map(rs).insert(r.0, (r.1, r.2)),
{
    let ns = rs.insert(p, r);
    assert forall|i: int, j: int| 0 <= i < j < ns.len() implies key_lt(#[trigger] ns[i].0, #[trigger] ns[j].0) by {
        if i < p && j == p {
        } else if i < p && j > p {
            assert(ns[j] == rs[j - 1]);
        } else if i == p && j > p {
            assert(ns[j] == rs[j - 1]);
            if j - 1 > p {
                assert(key_lt(rs[p].0, rs[j - 1].0));
                lemma_key_lt_transitive(r.0, rs[p].0, rs[j - 1].0);
            }
        } else if i > p {
            assert(ns[i] == rs[i - 1]);
            assert(ns[j] == rs[j - 1]);
        }
    }
    let m = records_map(rs).insert(r.0, (r.1, r.2));
    assert forall|k: Seq<char>| #[trigger] records_map(ns).contains_key(k) == m.contains_key(k) by {
        if has_key(ns, k) {
            let i = choose|i: int| 0 <= i < ns.len() && #[trigger] ns[i].0 == k;
            if i < p {
                assert(rs[i].0 == k);
            } else if i > p {
                assert(rs[i - 1].0 == k);
            }
        }
        if has_key(rs, k) {
            let i = choose|i: int| 0 <= i < rs.len() && #[trigger] rs[i].0 == k;
            if i < p {
                assert(ns[i].0 == k);
            } else {
                assert(ns[i + 1].0 == k);
            }
        }
        if k == r.0 {
            assert(ns[p].0 == k);
        }
    }
    assert forall|k: Seq<char>| #[trigger] records_map(ns).contains_key(k) implies records_map(ns)[k] == m[k] by {
        let i = choose|i: int| 0 <= i < ns.len() && #[trigger] ns[i].0 == k;
        lemma_records_map_at(ns, i);
        if i < p {
            assert(ns[i] == rs[i]);
            lemma_records_map_at(rs, i);
            assert(key_lt(rs[i].0, r.0));
            lemma_key_lt_asymmetric(rs[i].0, r.0);
            assert(k != r.0);
        } else if i > p {
            assert(ns[i] == rs[i - 1]);
            lemma_records_map_at(rs, i - 1);
            assert(key_lt(ns[p].0, ns[i].0));
            lemma_key_lt_asymmetric(ns[p].0, ns[i].0);
            assert(k != r.0);
        } else {
            assert(ns[p] == r);
        }
    }
    assert(records_map(ns) =~= m);
}

/// Replacing the record that has the key of `r` keeps the records sorted, and
/// maps the key to the new value and timestamp.
pub proof fn lemma_replace_record(rs: Seq<RecordView>, p: int, r: RecordView)
    requires
        records_sorted(rs),
        0 <= p < rs.len(),
        rs[p].0 == r.0,
    ensures
        records_sorted(rs.update(p, r)),
        records_map(rs.update(p, r)) == records_map(rs).insert(r.0, (r.1, r.2)),
{
    let ns = rs.update(p, r);
    assert forall|i: int, j: int| 0 <= i < j < ns.len() implies key_lt(#[trigger] ns[i].0, #[trigger] ns[j].0) by {
        assert(key_lt(rs[i].0, rs[j].0));
    }
    let m = records_map(rs).insert(r.0, (r.1, r.2));
    assert forall|k: Seq<char>| #[trigger] records_map(ns).contains_key(k) == m.contains_key(k) by {
        if has_key(ns, k) {
            let i = choose|i: int| 0 <= i < ns.len() && #[trigger] ns[i].0 == k;
            assert(rs[i].0 == k);
        }
        if has_key(rs, k) {
            let i = choose|i: int| 0 <= i < rs.len() && #[trigger] rs[i].0 == k;
            assert(ns[i].0 == k);
        }
    }
    assert forall|k: Seq<char>| #[trigger] records_map(ns).contains_key(k) implies records_map(ns)[k] == m[k] by {
        let i = choose|i: int| 0 <= i < ns.len() && #[trigger] ns[i].0 == k;
        lemma_records_map_at(ns, i);
        if i != p {
            assert(ns[i] == rs[i]);
            lemma_records_map_at(rs, i);
            if i < p {
                assert(key_lt(rs[i].0, rs[p].0));
                lemma_key_lt_asymmetric(rs[i].0, rs[p].0);
            } else {
                assert(key_lt(rs[p].0, rs[i].0));
                lemma_key_lt_asymmetric(rs[p].0, rs[i].0);
            }
            assert(k != r.0);
        }
    }
    assert(records_map(ns) =~= m);
}

/// The secrets: at most one entry per key, kept in key order.
///
/// They are held in a `Vec` sorted by key, with that order and the uniqueness of
/// keys as the type's invariant, in place of a `BTreeMap<String, _>`: vstd's
/// specification of `BTreeMap` proves next to nothing for a `String` key, while
/// over a sorted `Vec` the lookup, the update and the ordered listing are proved
/// against the map that `view` gives.
#[derive(Debug, PartialEq, Eq)]
pub struct Secrets {
    entries: Vec<Entry>,
}

impl View for Secrets {
    type V = Map<Seq<char>, SecretView>;

    /// Each key mapped to its value and timestamp: the map of the records.
    open spec fn view(&self) -> Map<Seq<char>, SecretView> {
        records_map(self.records())
    }
}

impl Secrets {
    /// The entries in key order.
    pub closed spec fn records(self) -> Seq<RecordView> {
        self.entries@.map_values(|e: Entry| e@)
    }

    #[verifier::type_invariant]
    spec fn sorted(self) -> bool {
        records_sorted(self.records())
    }

    /// No secrets.
    pub fn new() -> (res: Secrets)
        ensures
            res@ == Map::<Seq<char>, SecretView>::empty(),
            res.records() == Seq::<RecordView>::empty(),
            records_sorted(res.records()),
    {
        let res = Secrets { entries: Vec::new() };
        assert(res.records() =~= Seq::<RecordView>::empty());
        assert(res@ =~= Map::<Seq<char>, SecretView>::empty());
        res
    }

    /// The number of secrets.
    pub fn len(&self) -> (res: usize)
        ensures
            res == self.records().len(),
            res == self@.len(),
            records_sorted(self.records()),
    {
        proof {
            use_type_invariant(self);
            self.lemma_len();
        }
        self.entries.len()
    }

    proof fn lemma_len(&self)
        requires
            records_sorted(self.records()),
        ensures
            self@.len() == self.records().len(),
        decreases self.records().len(),
    {
        let rs = self.records();
        let dom = self@.dom();
        let keys = rs.map_values(|r: RecordView| r.0);
        assert forall|i: int, j: int| 0 <= i < keys.len() && 0 <= j < keys.len() && i != j
            implies keys[i] != keys[j] by {
            if i < j {
                assert(key_lt(rs[i].0, rs[j].0));
                lemma_key_lt_asymmetric(rs[i].0, rs[j].0);
            } else {
                assert(key_lt(rs[j].0, rs[i].0));
                lemma_key_lt_asymmetric(rs[j].0, rs[i].0);
            }
        }
        assert(keys.no_duplicates());
        keys.unique_seq_to_set();
        assert forall|k: Seq<char>| #[trigger] dom.contains(k) == keys.to_set().contains(k) by {
            if dom.contains(k) {
                let i = choose|i: int| 0 <= i < rs.len() && #[trigger] rs[i].0 == k;
                assert(keys[i] == k);
            }
            if keys.to_set().contains(k) {
                let i = choose|i: int| 0 <= i < keys.len() && #[trigger] keys[i] == k;
                assert(rs[i].0 == k);
            }
        }
        assert(dom =~= keys.to_set());
    }

    /// The entry for `key`, if there is one.
    pub fn get(&self, key: &str) -> (res: Option<&Entry>)
        ensures
            res is Some == self@.contains_key(key@),
            res matches Some(e) ==> e.key@ == key@ && self@[key@] == (e.value@, e.timestamp@),
            records_sorted(self.records()),
    {
        proof {
            use_type_invariant(self);
        }
        let mut i: usize = 0;
        while i < self.entries.len()
            invariant
                i <= self.entries@.len(),
                records_sorted(self.records()),
                forall|j: int| 0 <= j < i ==> self.records()[j].0 != key@,
            decreases self.entries@.len() - i,
        {
            if compare_keys(self.entries[i].key.as_str(), key) == KeyOrder::Equal {
                proof {
                    assert(self.records()[i as int] == self.entries@[i as int]@);
                    lemma_records_map_at(self.records(), i as int);
                }
                return Some(&self.entries[i]);
            }
            proof {
                assert(self.records()[i as int] == self.entries@[i as int]@);
            }
            i = i + 1;
        }
        proof {
            if self@.contains_key(key@) {
                let j = choose|j: int| 0 <= j < self.records().len() && #[trigger] self.records()[j].0 == key@;
                assert(false);
            }
        }
        None
    }

    /// Sets `key` to `value` with the given timestamp, replacing any entry for `key`.
    pub fn insert(&mut self, key: String, value: String, timestamp: Timestamp)
        ensures
            final(self)@ == old(self)@.insert(key@, (value@, timestamp@)),
            records_sorted(final(self).records()),
    {
        proof {
            use_type_invariant(&*self);
        }
        let ghost old_rs = self.records();
        let mut entries: Vec<Entry> = Vec::new();
        std::mem::swap(&mut entries, &mut self.entries);
        assert(entries@.map_values(|e: Entry| e@) == old_rs);
        let mut p: usize = 0;
        let mut found = false;
        while p < entries.len()
            invariant_except_break
                !found,
            invariant
                p <= entries@.len(),
                entries@.map_values(|e: Entry| e@) == old_rs,
                forall|i: int| 0 <= i < p ==> key_lt(#[trigger] old_rs[i].0, key@),
            ensures
                p <= entries@.len(),
                entries@.map_values(|e: Entry| e@) == old_rs,
                forall|i: int| 0 <= i < p ==> key_lt(#[trigger] old_rs[i].0, key@),
                found ==> p < entries@.len() && old_rs[p as int].0 == key@,
                !found && p < entries@.len() ==> key_lt(key@, old_rs[p as int].0),
            decreases entries@.len() - p,
        {
            assert(old_rs[p as int] == entries@[p as int]@);
            match compare_keys(entries[p].key.as_str(), key.as_str()) {
                KeyOrder::Less => {
                    p = p + 1;
                },
                KeyOrder::Equal => {
                    found = true;
                    break ;
                },
                KeyOrder::Greater => {
                    break ;
                },
            }
        }
        let entry = Entry { key, value, timestamp };
        let ghost r = entry@;
        if found {
            entries.set(p, entry);
            proof {
                lemma_replace_record(old_rs, p as int, r);
                assert(entries@.map_values(|e: Entry| e@) =~= old_rs.update(p as int, r));
            }
        } else {
            entries.insert(p, entry);
            proof {
                lemma_insert_record(old_rs, p as int, r);
                assert(entries@.map_values(|e: Entry| e@) =~= old_rs.insert(p as int, r));
            }
        }
        self.entries = entries;
        proof {
            use_type_invariant(&*self);
        }
    }

    /// Sets `key` to `value`, stamped with the current time, replacing any entry
    /// for `key`; where the clock gives no instant, nothing changes.
    pub fn upsert(&mut self, key: String, value: String) -> (res: Result<(), ClockError>)
        ensures
            res is Ok ==> final(self)@ == old(self)@.insert(key@, (value@, final(self)@[key@].1)),
            res is Ok ==> final(self)@[key@].1.0 >= 0 && final(self)@[key@].1.1 < 1_000_000_000,
            res is Ok ==> read_from_clock(final(self)@[key@].1),
            res is Err ==> final(self)@ == old(self)@,
            records_sorted(final(self).records()),
    {
        proof {
            use_type_invariant(&*self);
        }
        let now = Timestamp::now()?;
        self.insert(key, value, now);
        Ok(())
    }
}

impl Default for Secrets {
    fn default() -> (res: Secrets)
        ensures
            res@ == Map::<Seq<char>, SecretView>::empty(),
    {
        Secrets::new()
    }
}

/// Why stored text could not be read: the first line that failed, trimmed, and
/// what was wrong with it.
#[derive(Debug)]
pub struct ParseError {
    pub fault: LineFault,
    pub line: String,
}

impl View for ParseError {
    type V = (LineFault, Seq<char>);

    open spec fn view(&self) -> (LineFault, Seq<char>) {
        (self.fault, self.line@)
    }
}

impl Clone for ParseError {
    fn clone(&self) -> (res: Self)
        ensures
            res@ == self@,
    {
        ParseError { fault: self.fault, line: self.line.clone() }
    }
}

/// Reading lines into the map `m`: each line is trimmed, blank lines are
/// skipped, each other line sets its key (later lines win), and the first line
/// that cannot be read stops with its fault and its trimmed text.
pub open spec fn apply_lines(m: Map<Seq<char>, SecretView>, lines: Seq<Seq<char>>) -> Result<
    Map<Seq<char>, SecretView>,
    (LineFault, Seq<char>),
>
    decreases lines.len(),
{
    if lines.len() == 0 {
        Ok(m)
    } else {
        let l = trim(lines[0]);
        if l.len() == 0 {
            apply_lines(m, lines.drop_first())
        } else {
            match parse_record(l) {
                Err(f) => Err((f, l)),
                Ok(r) => apply_lines(m.insert(r.0, (r.1, r.2)), lines.drop_first()),
            }
        }
    }
}

/// The secrets that a sequence of lines holds, or the first line that cannot be read.
pub open spec fn read_lines(lines: Seq<Seq<char>>) -> Result<Map<Seq<char>, SecretView>, (LineFault, Seq<char>)> {
    apply_lines(Map::empty(), lines)
}

/// The secrets that a text holds, line by line, or the first line that cannot be read.
pub open spec fn read_text(text: Seq<char>) -> Result<Map<Seq<char>, SecretView>, (LineFault, Seq<char>)> {
    read_lines(lines_of(text))
}

/// Every timestamp of `m` cut to the whole second.
pub open spec fn whole_seconds(m: Map<Seq<char>, SecretView>) -> Map<Seq<char>, SecretView> {
    Map::new(|k: Seq<char>| m.contains_key(k), |k: Seq<char>| (m[k].0, (m[k].1.0, 0u32)))
}

/// Every secret of `m` is one that its stored line gives back.
pub open spec fn all_restorable(m: Map<Seq<char>, SecretView>) -> bool {
    forall|k: Seq<char>| #[trigger] m.contains_key(k) ==> restorable((k, m[k].0, m[k].1))
}

/// Whether `key` passes the filter `pattern`: no pattern, or the pattern occurs
/// in the key with both in lower case.
pub open spec fn key_matches(key: Seq<char>, pattern: Option<Seq<char>>) -> bool {
    match pattern {
        None => true,
        Some(p) => contains_text(lowercase_text(key), lowercase_text(p)),
    }
}

/// The text of an optional pattern.
pub open spec fn pattern_view(pattern: Option<&str>) -> Option<Seq<char>> {
    match pattern {
        Some(p) => Some(p@),
        None => None,
    }
}

/// The records whose keys pass `pattern`, as key and timestamp, in key order.
pub open spec fn matching_records(rs: Seq<RecordView>, pattern: Option<Seq<char>>) -> Seq<(Seq<char>, (i64, u32))> {
    rs.filter(|r: RecordView| key_matches(r.0, pattern)).map_values(|r: RecordView| (r.0, r.2))
}

/// `listed` is what `list(pattern)` gives for the secrets `s`: the matching
/// records in key order, each a key of `s` with its timestamp, and exactly the
/// keys of `s` in which the pattern occurs, compared in lower case.
pub open spec fn listing_of(s: Secrets, pattern: Option<&str>, listed: Seq<(String, Timestamp)>) -> bool {
    &&& listed_records(s, pattern, listed)
    &&& listed_from(s, pattern, listed)
    &&& listed_by_substring(s, pattern, listed)
}

/// `listed` is, entry by entry, the records of `s` whose keys pass `pattern`, as
/// key and timestamp, in key order.
pub open spec fn listed_records(s: Secrets, pattern: Option<&str>, listed: Seq<(String, Timestamp)>) -> bool {
    &&& listed.len() == matching_records(s.records(), pattern_view(pattern)).len()
    &&& forall|j: int| 0 <= j < listed.len() ==> (#[trigger] listed[j].0@, listed[j].1@) == matching_records(
        s.records(),
        pattern_view(pattern),
    )[j]
}

/// Every entry of `listed` is a key of `s` that passes `pattern`, with the time
/// it was last set, and every key of `s` that passes it is listed.
pub open spec fn listed_from(s: Secrets, pattern: Option<&str>, listed: Seq<(String, Timestamp)>) -> bool {
    &&& forall|j: int| 0 <= j < listed.len() ==> #[trigger] s@.contains_key(listed[j].0@)
        && s@[listed[j].0@].1 == listed[j].1@ && key_matches(listed[j].0@, pattern_view(pattern))
    &&& forall|k: Seq<char>| #[trigger] s@.contains_key(k) && key_matches(k, pattern_view(pattern))
        ==> exists|j: int| 0 <= j < listed.len() && listed[j].0@ == k
}

/// A key of `s` is in `listed` exactly when `pattern` is absent or, lower-cased,
/// occurs as a contiguous run anywhere in the key, lower-cased.
pub open spec fn listed_by_substring(s: Secrets, pattern: Option<&str>, listed: Seq<(String, Timestamp)>) -> bool {
    forall|k: Seq<char>| #[trigger] s@.contains_key(k) ==> ((exists|j: int| 0 <= j < listed.len() && listed[j].0@ == k) <==> (
        pattern matches Some(p) ==> exists|i: int|
            0 <= i && i + lowercase_text(p@).len() <= lowercase_text(k).len()
                && #[trigger] lowercase_text(k).subrange(i, i + lowercase_text(p@).len()) == lowercase_text(p@)
    ))
}

/// Sorted records are their first record added to the rest.
proof fn lemma_records_map_first(rs: Seq<RecordView>)
    requires
        records_sorted(rs),
        rs.len() > 0,
    ensures
        records_sorted(rs.drop_first()),
        records_map(rs) == records_map(rs.drop_first()).insert(rs[0].0, (rs[0].1, rs[0].2)),
        !records_map(rs.drop_first()).contains_key(rs[0].0),
{
    let rest = rs.drop_first();
    assert forall|i: int, j: int| 0 <= i < j < rest.len() implies key_lt(#[trigger] rest[i].0, #[trigger] rest[j].0) by {
        assert(key_lt(rs[i + 1].0, rs[j + 1].0));
    }
    if rest.len() > 0 {
        assert(key_lt(rs[0].0, rs[1].0));
    }
    assert(rest.insert(0, rs[0]) =~= rs);
    lemma_insert_record(rest, 0, rs[0]);
    if has_key(rest, rs[0].0) {
        let j = choose|j: int| 0 <= j < rest.len() && #[trigger] rest[j].0 == rs[0].0;
        assert(key_lt(rs[0].0, rs[j + 1].0));
        lemma_key_lt_irreflexive(rs[0].0);
    }
}

/// Lines that each give back their record read into `m` as the records' map,
/// with timestamps cut to the whole second, laid over `m`.
proof fn lemma_apply_restoring_lines(m: Map<Seq<char>, SecretView>, ls: Seq<Seq<char>>, rs: Seq<RecordView>)
    requires
        ls.len() == rs.len(),
        records_sorted(rs),
        forall|j: int| 0 <= j < ls.len() ==> line_restores(#[trigger] ls[j], rs[j]),
    ensures
        apply_lines(m, ls) == Ok::<Map<Seq<char>, SecretView>, (LineFault, Seq<char>)>(
            m.union_prefer_right(whole_seconds(records_map(rs))),
        ),
    decreases ls.len(),
{
    if ls.len() == 0 {
        assert(m.union_prefer_right(whole_seconds(records_map(rs))) =~= m);
    } else {
        let r0 = rs[0];
        let rest = rs.drop_first();
        assert(line_restores(ls[0], rs[0]));
        let w0 = (r0.1, (r0.2.0, 0u32));
        let m1 = m.insert(r0.0, w0);
        lemma_records_map_first(rs);
        assert forall|j: int| 0 <= j < ls.drop_first().len() implies line_restores(
            #[trigger] ls.drop_first()[j],
            rest[j],
        ) by {
            assert(line_restores(ls[j + 1], rs[j + 1]));
        }
        lemma_apply_restoring_lines(m1, ls.drop_first(), rest);
        assert(apply_lines(m, ls) == apply_lines(m1, ls.drop_first()));
        let left = m1.union_prefer_right(whole_seconds(records_map(rest)));
        let right = m.union_prefer_right(whole_seconds(records_map(rs)));
        assert(left =~= right);
    }
}

impl Secrets {
    /// The lines that store the secrets, one per entry, in key order. Where every
    /// secret is restorable, reading the lines gives back the secrets, timestamps
    /// cut to the whole second.
    pub fn to_lines(&self) -> (res: Vec<String>)
        ensures
            records_sorted(self.records()),
            res@.len() == self.records().len(),
            res@.len() == self@.len(),
            forall|i: int| 0 <= i < res@.len() ==> #[trigger] res@[i]@ == record_line(self.records()[i]),
            all_restorable(self@) ==> read_lines(res@.map_values(|l: String| l@)) == Ok::<
                Map<Seq<char>, SecretView>,
                (LineFault, Seq<char>),
            >(whole_seconds(self@)),
            all_restorable(self@) ==> forall|i: int| 0 <= i < res@.len() ==> is_plain_line(#[trigger] res@[i]@),
    {
        proof {
            use_type_invariant(self);
        }
        proof {
            self.lemma_len();
        }
        let ghost rs = self.records();
        let mut out: Vec<String> = Vec::new();
        let mut i: usize = 0;
        while i < self.entries.len()
            invariant
                i <= self.entries@.len(),
                rs == self.records(),
                out@.len() == i,
                forall|j: int| 0 <= j < i ==> #[trigger] out@[j]@ == record_line(rs[j]),
                forall|j: int| 0 <= j < i ==> restorable(rs[j]) ==> line_restores(#[trigger] out@[j]@, rs[j]),
            decreases self.entries@.len() - i,
        {
            let e = &self.entries[i];
            assert(rs[i as int] == e@);
            let line = record_to_line(e.key.as_str(), e.value.as_str(), &e.timestamp);
            out.push(line);
            i = i + 1;
        }
        proof {
            if all_restorable(self@) {
                assert forall|j: int| 0 <= j < rs.len() implies restorable(#[trigger] rs[j]) by {
                    lemma_records_map_at(rs, j);
                    assert(self@.contains_key(rs[j].0));
                }
                let ls = out@.map_values(|l: String| l@);
                assert forall|j: int| 0 <= j < ls.len() implies line_restores(#[trigger] ls[j], rs[j]) by {
                    assert(restorable(rs[j]));
                    assert(ls[j] == out@[j]@);
                }
                lemma_apply_restoring_lines(Map::empty(), ls, rs);
                assert(Map::<Seq<char>, SecretView>::empty().union_prefer_right(whole_seconds(records_map(rs))) =~= whole_seconds(self@));
                assert forall|j: int| 0 <= j < out@.len() implies is_plain_line(#[trigger] out@[j]@) by {
                    assert(restorable(rs[j]));
                }
            }
        }
        out
    }

    /// The stored text: the lines of `to_lines` joined with `\n`. Where every
    /// secret is restorable, reading the text gives back the secrets, timestamps
    /// cut to the whole second.
    pub fn to_plaintext(&self) -> (res: String)
        ensures
            records_sorted(self.records()),
            res@ == join_lines(self.records().map_values(|r: RecordView| record_line(r))),
            all_restorable(self@) ==> read_text(res@) == Ok::<
                Map<Seq<char>, SecretView>,
                (LineFault, Seq<char>),
            >(whole_seconds(self@)),
    {
        let lines = self.to_lines();
        let res = join_with_newlines(&lines);
        proof {
            let ls = lines@.map_values(|l: String| l@);
            assert(ls =~= self.records().map_values(|r: RecordView| record_line(r)));
            if all_restorable(self@) {
                assert forall|i: int| 0 <= i < ls.len() implies is_plain_line(#[trigger] ls[i]) by {
                    assert(ls[i] == lines@[i]@);
                }
                lemma_lines_of_join(ls);
            }
        }
        res
    }

    /// The secrets that the lines hold: each line is trimmed, blank lines are
    /// skipped, a later line for a key replaces an earlier one, and the first line
    /// that cannot be read is the error.
    pub fn from_lines(lines: Vec<String>) -> (res: Result<Secrets, ParseError>)
        ensures
            match res {
                Ok(s) => records_sorted(s.records()) && read_lines(lines@.map_values(|l: String| l@)) == Ok::<
                    Map<Seq<char>, SecretView>,
                    (LineFault, Seq<char>),
                >(s@),
                Err(e) => read_lines(lines@.map_values(|l: String| l@)) == Err::<
                    Map<Seq<char>, SecretView>,
                    (LineFault, Seq<char>),
                >(e@),
            },
    {
        let ghost ls = lines@.map_values(|l: String| l@);
        let mut secrets = Secrets::new();
        let mut i: usize = 0;
        assert(ls.skip(0) =~= ls);
        while i < lines.len()
            invariant
                i <= lines@.len(),
                ls == lines@.map_values(|l: String| l@),
                read_lines(ls) == apply_lines(secrets@, ls.skip(i as int)),
            decreases lines@.len() - i,
        {
            proof {
                assert(ls.skip(i as int)[0] == ls[i as int]);
                assert(ls.skip(i as int).drop_first() =~= ls.skip(i + 1));
            }
            let chars = chars_of(lines[i].as_str());
            let (a, b) = trim_bounds(chars.as_slice());
            if a < b {
                let l = copy_range(chars.as_slice(), a, b);
                match parse_record_line(l.as_slice()) {
                    Err(f) => {
                        let line = string_from_chars(l.as_slice());
                        return Err(ParseError { fault: f, line });
                    },
                    Ok((k, v, t)) => {
                        secrets.insert(k, v, t);
                    },
                }
            }
            i = i + 1;
        }
        assert(ls.skip(lines@.len() as int) =~= Seq::<Seq<char>>::empty());
        proof {
            use_type_invariant(&secrets);
        }
        Ok(secrets)
    }

    /// The secrets that a stored text holds, read line by line as `from_lines` does.
    pub fn from_plaintext(text: &str) -> (res: Result<Secrets, ParseError>)
        ensures
            match res {
                Ok(s) => records_sorted(s.records()) && read_text(text@) == Ok::<Map<Seq<char>, SecretView>, (LineFault, Seq<char>)>(
                    s@,
                ),
                Err(e) => read_text(text@) == Err::<Map<Seq<char>, SecretView>, (LineFault, Seq<char>)>(
                    e@,
                ),
            },
    {
        let lines = split_lines(text);
        Secrets::from_lines(lines)
    }

    /// The keys that pass `pattern` (a substring, compared in lower case), each
    /// with the time it was last set, in key order.
    pub fn matching(&self, pattern: Option<&str>) -> (res: Vec<(String, Timestamp)>)
        ensures
            res@.map_values(|p: (String, Timestamp)| (p.0@, p.1@)) == matching_records(
                self.records(),
                pattern_view(pattern),
            ),
            forall|j: int| 0 <= j < res@.len() ==> key_matches(#[trigger] res@[j].0@, pattern_view(pattern)),
            forall|j: int| 0 <= j < res@.len() ==> #[trigger] self@.contains_key(res@[j].0@) && self@[res@[j].0@].1 == res@[j].1@,
            forall|j: int, k: int| 0 <= j < k < res@.len() ==> key_lt(#[trigger] res@[j].0@, #[trigger] res@[k].0@),
            forall|k: Seq<char>| #[trigger] self@.contains_key(k) && key_matches(k, pattern_view(pattern)) ==> exists|j: int| 0 <= j < res@.len() && res@[j].0@ == k,
            listing_of(*self, pattern, res@),
            records_sorted(self.records()),
    {
        proof {
            use_type_invariant(self);
        }
        let ghost pat = pattern_view(pattern);
        let ghost rs = self.records();
        let ghost pred = |r: RecordView| key_matches(r.0, pat);
        let ghost proj = |r: RecordView| (r.0, r.2);
        let needle: Option<Vec<char>> = match pattern {
            Some(p) => {
                let lower = to_lowercase(p);
                Some(chars_of(lower.as_str()))
            },
            None => None,
        };
        let mut out: Vec<(String, Timestamp)> = Vec::new();
        let ghost mut idx: Seq<int> = Seq::empty();
        let ghost mut pos: Seq<int> = Seq::empty();
        let mut i: usize = 0;
        while i < self.entries.len()
            invariant
                i <= self.entries@.len(),
                rs == self.records(),
                records_sorted(rs),
                pat == pattern_view(pattern),
                pred == (|r: RecordView| key_matches(r.0, pat)),
                proj == (|r: RecordView| (r.0, r.2)),
                match needle {
                    Some(n) => pat matches Some(p) && n@ == lowercase_text(p),
                    None => pat is None,
                },
                out@.map_values(|p: (String, Timestamp)| (p.0@, p.1@)) == rs.take(i as int).filter(
                    pred,
                ).map_values(proj),
                idx.len() == out@.len(),
                forall|j: int| 0 <= j < out@.len() ==> 0 <= #[trigger] idx[j] < i,
                forall|j: int| 0 <= j < out@.len() ==> (#[trigger] out@[j]).0@ == rs[idx[j]].0 && out@[j].1@ == rs[idx[j]].2,
                forall|j: int| 0 <= j < out@.len() ==> key_matches(#[trigger] out@[j].0@, pat),
                forall|j: int, k: int| 0 <= j < k < out@.len() ==> key_lt(#[trigger] out@[j].0@, #[trigger] out@[k].0@),
                pos.len() == i,
                forall|m: int| 0 <= m < i && pred(rs[m]) ==> 0 <= #[trigger] pos[m] < out@.len() && out@[pos[m]].0@ == rs[m].0,
            decreases self.entries@.len() - i,
        {
            let e = &self.entries[i];
            assert(rs[i as int] == e@);
            let keep = match &needle {
                None => true,
                Some(n) => {
                    let lower = to_lowercase(e.key.as_str());
                    let hay = chars_of(lower.as_str());
                    chars_contain(hay.as_slice(), n.as_slice())
                },
            };
            assert(keep == pred(rs[i as int]));
            let ghost before = out@.map_values(|p: (String, Timestamp)| (p.0@, p.1@));
            let ghost old_out = out@;
            proof {
                reveal_with_fuel(Seq::filter, 1);
                assert(rs.take(i + 1).drop_last() =~= rs.take(i as int));
            }
            if keep {
                out.push((e.key.clone(), e.timestamp));
                assert(out@.map_values(|p: (String, Timestamp)| (p.0@, p.1@)) =~= before.push(proj(rs[i as int])));
                proof {
                    idx = idx.push(i as int);
                    assert forall|j: int, k: int| 0 <= j < k < out@.len() implies key_lt(#[trigger] out@[j].0@, #[trigger] out@[k].0@) by {
                        if k == out@.len() - 1 {
                            assert(out@[j] == old_out[j]);
                            assert(key_lt(rs[idx[j]].0, rs[i as int].0));
                        } else {
                            assert(out@[j] == old_out[j]);
                            assert(out@[k] == old_out[k]);
                        }
                    }
                    assert forall|j: int| 0 <= j < out@.len() implies (#[trigger] out@[j]).0@ == rs[idx[j]].0 && out@[j].1@ == rs[idx[j]].2 by {
                        if j < out@.len() - 1 {
                            assert(out@[j] == old_out[j]);
                        }
                    }
                    assert forall|j: int| 0 <= j < out@.len() implies key_matches(#[trigger] out@[j].0@, pat) by {
                        if j < out@.len() - 1 {
                            assert(out@[j] == old_out[j]);
                        }
                    }
                }
            }
            proof {
                let ghost old_pos = pos;
                pos = pos.push((out@.len() - 1) as int);
                assert forall|m: int| 0 <= m < i + 1 && pred(rs[m]) implies 0 <= #[trigger] pos[m] < out@.len() && out@[pos[m]].0@ == rs[m].0 by {
                    if m < i {
                        assert(pos[m] == old_pos[m]);
                        assert(out@[pos[m]] == old_out[pos[m]]);
                    }
                }
            }
            i = i + 1;
        }
        assert(rs.take(self.entries@.len() as int) =~= rs);
        proof {
            assert forall|j: int| 0 <= j < out@.len() implies #[trigger] self@.contains_key(out@[j].0@) && self@[out@[j].0@].1 == out@[j].1@ by {
                lemma_records_map_at(rs, idx[j]);
            }
            assert forall|k: Seq<char>| #[trigger] self@.contains_key(k) && key_matches(k, pat) implies exists|j: int| 0 <= j < out@.len() && out@[j].0@ == k by {
                let m = key_index(rs, k);
                assert(pred(rs[m]));
                assert(out@[pos[m]].0@ == k);
            }
            assert forall|k: Seq<char>| #[trigger] self@.contains_key(k) implies ((exists|j: int|
                0 <= j < out@.len() && out@[j].0@ == k) <==> (pattern matches Some(p) ==> exists|i: int|
                0 <= i && i + lowercase_text(p@).len() <= lowercase_text(k).len()
                    && #[trigger] lowercase_text(k).subrange(i, i + lowercase_text(p@).len()) == lowercase_text(p@))) by {
                match pattern {
                    Some(p) => crate::laws::lemma_pattern_is_case_insensitive_substring(k, p@),
                    None => {},
                }
                if exists|j: int| 0 <= j < out@.len() && out@[j].0@ == k {
                    let j = choose|j: int| 0 <= j < out@.len() && out@[j].0@ == k;
                    assert(key_matches(out@[j].0@, pat));
                }
            }
            assert forall|j: int| 0 <= j < out@.len() implies (#[trigger] out@[j].0@, out@[j].1@) == matching_records(
                rs,
                pat,
            )[j] by {
                assert(out@.map_values(|p: (String, Timestamp)| (p.0@, p.1@))[j] == (out@[j].0@, out@[j].1@));
            }
            assert(listed_records(*self, pattern, out@));
            assert(listed_from(*self, pattern, out@));
            assert(listed_by_substring(*self, pattern, out@));
        }
        out
    }
}

impl Clone for Secrets {
    fn clone(&self) -> (res: Self)
        ensures
            res@ == self@,
            res.records() == self.records(),
            records_sorted(res.records()),
    {
        proof {
            use_type_invariant(self);
        }
        let mut entries: Vec<Entry> = Vec::new();
        let mut i: usize = 0;
        while i < self.entries.len()
            invariant
                i <= self.entries@.len(),
                records_sorted(self.records()),
                entries@.len() == i,
                forall|j: int| 0 <= j < i ==> (#[trigger] entries@[j])@ == self.entries@[j]@,
            decreases self.entries@.len() - i,
        {
            let e = self.entries[i].clone();
            entries.push(e);
            i = i + 1;
        }
        assert(entries@.map_values(|e: Entry| e@) =~= self.records());
        Secrets { entries }
    }
}

} // verus!
