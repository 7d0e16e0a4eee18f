//! Tables from user ids (as text) to numbers: the per-group message counts of
//! the day and of all time, and the pairings drawn for the day.

use std::collections::HashMap;
use vstd::prelude::*;

use crate::file_io::remove_prefix;
use crate::text::{
    has_prefix, i64_to_string, int_decimal, lemma_parse_i64_of_decimal, parse_i64, parse_i64_spec,
};

verus! {

broadcast use vstd::seq_lib::group_to_multiset_ensures;

/// The abstract value of one table entry.
pub open spec fn entry_view(e: (String, i64)) -> (Seq<char>, i64) {
    (e.0@, e.1)
}

pub open spec fn entries_view(v: Seq<(String, i64)>) -> Seq<(Seq<char>, i64)> {
    v.map_values(|e: (String, i64)| entry_view(e))
}

/// No key occurs twice.
pub open spec fn keys_distinct<V>(s: Seq<(Seq<char>, V)>) -> bool {
    forall|i: int, j: int| 0 <= i < s.len() && 0 <= j < s.len() && i != j ==> s[i].0 != s[j].0
}

/// The map that a sequence of entries denotes, later entries winning.
pub open spec fn entries_map<V>(s: Seq<(Seq<char>, V)>) -> Map<Seq<char>, V>
    decreases s.len(),
{
    if s.len() == 0 {
        Map::empty()
    } else {
        entries_map(s.drop_last()).insert(s.last().0, s.last().1)
    }
}

/// With distinct keys, the map of a sequence of entries holds exactly their
/// keys, each with its entry's value.
pub proof fn lemma_entries_map<V>(s: Seq<(Seq<char>, V)>)
    requires
        keys_distinct(s),
    ensures
        forall|k: Seq<char>|
            #[trigger] entries_map(s).contains_key(k) <==> exists|i: int| 0 <= i < s.len() && s[i].0 == k,
        forall|i: int| 0 <= i < s.len() ==> #[trigger] entries_map(s)[s[i].0] == s[i].1,
    decreases s.len(),
{
    if s.len() > 0 {
        let t = s.drop_last();
        assert(keys_distinct(t));
        lemma_entries_map(t);
        assert forall|k: Seq<char>|
            #[trigger] entries_map(s).contains_key(k) <==> exists|i: int| 0 <= i < s.len() && s[i].0 == k by {
            assert(entries_map(s) == entries_map(t).insert(s.last().0, s.last().1));
            if entries_map(s).contains_key(k) {
                if k == s.last().0 {
                    assert(s[s.len() - 1].0 == k);
                } else {
                    assert(entries_map(t).contains_key(k));
                    let i = choose|i: int| 0 <= i < t.len() && t[i].0 == k;
                    assert(s[i].0 == k);
                }
            }
            if exists|i: int| 0 <= i < s.len() && s[i].0 == k {
                let i = choose|i: int| 0 <= i < s.len() && s[i].0 == k;
                if i < s.len() - 1 {
                    assert(t[i].0 == k);
                    assert(entries_map(t).contains_key(k));
                }
            }
        }
        assert forall|i: int| 0 <= i < s.len() implies #[trigger] entries_map(s)[s[i].0] == s[i].1 by {
            assert(entries_map(s) == entries_map(t).insert(s.last().0, s.last().1));
            if i < s.len() - 1 {
                assert(t[i] == s[i]);
                assert(s[i].0 != s.last().0);
                assert(entries_map(t)[t[i].0] == t[i].1);
            }
        }
    }
}

/// A table from keys to numbers. Each key occurs at most once; the entries keep
/// the order in which their keys were first added.
pub struct CountMap {
    entries: Vec<(String, i64)>,
}

impl CountMap {
    #[verifier::type_invariant]
    closed spec fn inv(self) -> bool {
        keys_distinct(entries_view(self.entries@))
    }
}

impl View for CountMap {
    type V = Map<Seq<char>, i64>;

    closed spec fn view(&self) -> Map<Seq<char>, i64> {
        entries_map(entries_view(self.entries@))
    }
}

/// The number a table holds for `k`, or zero when it holds none.
pub open spec fn count_of(m: Map<Seq<char>, i64>, k: Seq<char>) -> int {
    if m.contains_key(k) {
        m[k] as int
    } else {
        0
    }
}

impl CountMap {
    /// An empty table.
    pub fn new() -> (t: CountMap)
        ensures
            t@ == Map::<Seq<char>, i64>::empty(),
    {
        CountMap { entries: Vec::new() }
    }

    /// Where `key` stands among the entries, if anywhere.
    fn find(&self, key: &String) -> (res: Option<usize>)
        ensures
            match res {
                Some(i) => i < self.entries@.len() && self.entries@[i as int].0@ == key@,
                None => forall|i: int| 0 <= i < self.entries@.len() ==> self.entries@[i].0@ != key@,
            },
    {
        let mut i: usize = 0;
        while i < self.entries.len()
            invariant
                i <= self.entries@.len(),
                forall|j: int| 0 <= j < i ==> self.entries@[j].0@ != key@,
            decreases self.entries.len() - i,
        {
            if self.entries[i].0 == *key {
                return Some(i);
            }
            i = i + 1;
        }
        None
    }

    /// The number held for `key`, if any.
    pub fn get(&self, key: &String) -> (res: Option<i64>)
        ensures
            res == (if self@.contains_key(key@) {
                Some(self@[key@])
            } else {
                None::<i64>
            }),
    {
        proof {
            use_type_invariant(self);
            lemma_entries_map(entries_view(self.entries@));
        }
        match self.find(key) {
            Some(i) => {
                assert(entries_view(self.entries@)[i as int].0 == key@);
                Some(self.entries[i].1)
            },
            None => {
                assert(!self@.contains_key(key@)) by {
                    if self@.contains_key(key@) {
                        let j = choose|j: int|
                            0 <= j < entries_view(self.entries@).len() && entries_view(self.entries@)[j].0 == key@;
                        assert(self.entries@[j].0@ == key@);
                    }
                }
                None
            },
        }
    }

    /// Sets the number held for `key`.
    pub fn insert(&mut self, key: String, value: i64)
        ensures
            final(self)@ == old(self)@.insert(key@, value),
    {
        proof {
            use_type_invariant(&*self);
            lemma_entries_map(entries_view(self.entries@));
        }
        let ghost old_view = entries_view(self.entries@);
        match self.find(&key) {
            Some(i) => {
                let ghost k = key@;
                let mut entries: Vec<(String, i64)> = Vec::new();
                std::mem::swap(&mut entries, &mut self.entries);
                entries.set(i, (key, value));
                assert(keys_distinct(entries_view(entries@))) by {
                    let nv = entries_view(entries@);
                    assert(nv =~= old_view.update(i as int, (k, value)));
                    assert(old_view[i as int].0 == k);
                    assert forall|a: int, b: int| 0 <= a < nv.len() && 0 <= b < nv.len() && a != b implies nv[a].0 != nv[b].0 by {
                        assert(old_view[a].0 != old_view[b].0);
                    }
                }
                self.entries = entries;
                let ghost new_view = entries_view(self.entries@);
                assert(new_view =~= old_view.update(i as int, (k, value)));
                assert(keys_distinct(new_view));
                proof {
                    lemma_entries_map(new_view);
                }
                assert(self@ == entries_map(new_view));
                assert(old(self)@ == entries_map(old_view));
                assert(new_view[i as int].0 == k);
                assert(new_view[i as int].1 == value);
                assert(self@ =~= old(self)@.insert(k, value)) by {
                    assert forall|kk: Seq<char>| #[trigger] self@.contains_key(kk) <==> old(self)@.insert(k, value).contains_key(kk) by {
                        if kk == k {
                            assert(entries_map(new_view).contains_key(new_view[i as int].0));
                        }
                        if old(self)@.insert(k, value).contains_key(kk) && kk != k {
                            let j = choose|j: int| 0 <= j < old_view.len() && old_view[j].0 == kk;
                            assert(new_view[j].0 == kk);
                        }
                        if self@.contains_key(kk) && kk != k {
                            let j = choose|j: int| 0 <= j < new_view.len() && new_view[j].0 == kk;
                            assert(old_view[j].0 == kk);
                        }
                    }
                    assert forall|kk: Seq<char>| #[trigger] self@.contains_key(kk) implies self@[kk] == old(self)@.insert(k, value)[kk] by {
                        let j = choose|j: int| 0 <= j < new_view.len() && new_view[j].0 == kk;
                        assert(entries_map(new_view)[new_view[j].0] == new_view[j].1);
                        if kk != k {
                            assert(old_view[j].0 == kk);
                            assert(entries_map(old_view)[old_view[j].0] == old_view[j].1);
                        } else {
                            assert(j == i);
                        }
                    }
                }
            },
            None => {
                let ghost k = key@;
                let mut entries: Vec<(String, i64)> = Vec::new();
                std::mem::swap(&mut entries, &mut self.entries);
                entries.push((key, value));
                assert(keys_distinct(entries_view(entries@))) by {
                    assert(entries_view(entries@) =~= old_view.push((k, value)));
                }
                self.entries = entries;
                let ghost new_view = entries_view(self.entries@);
                assert(new_view =~= old_view.push((k, value)));
                assert(new_view.drop_last() =~= old_view);
            },
        }
    }
}

impl CountMap {
    /// Adds `delta` to the number held for `key`, which counts as zero when
    /// the table holds none.
    pub fn add(&mut self, key: String, delta: i64)
        requires
            i64::MIN <= count_of(old(self)@, key@) + delta <= i64::MAX,
        ensures
            final(self)@ == old(self)@.insert(key@, (count_of(old(self)@, key@) + delta) as i64),
    {
        let cur: i64 = match self.get(&key) {
            Some(v) => v,
            None => 0,
        };
        self.insert(key, cur + delta);
    }

    /// Removes every entry.
    pub fn clear(&mut self)
        ensures
            final(self)@ == Map::<Seq<char>, i64>::empty(),
    {
        self.entries = Vec::new();
    }

    /// The entries, each key once.
    pub fn entries(&self) -> (res: Vec<(String, i64)>)
        ensures
            keys_distinct(entries_view(res@)),
            entries_map(entries_view(res@)) == self@,
    {
        proof {
            use_type_invariant(self);
        }
        let mut res: Vec<(String, i64)> = Vec::new();
        let mut i: usize = 0;
        while i < self.entries.len()
            invariant
                i <= self.entries@.len(),
                entries_view(res@) == entries_view(self.entries@).take(i as int),
            decreases self.entries.len() - i,
        {
            let k = self.entries[i].0.clone();
            let v = self.entries[i].1;
            let ghost prev = res@;
            res.push((k, v));
            assert(entries_view(res@) =~= entries_view(prev).push(entry_view(self.entries@[i as int])));
            assert(entries_view(self.entries@).take(i + 1) =~= entries_view(self.entries@).take(i as int).push(
                entry_view(self.entries@[i as int]),
            ));
            i = i + 1;
        }
        assert(entries_view(self.entries@).take(self.entries@.len() as int) =~= entries_view(self.entries@));
        res
    }
}

/// The table with `b`'s numbers added to `a`'s, key by key.
pub open spec fn merged(a: Map<Seq<char>, i64>, b: Map<Seq<char>, i64>) -> Map<Seq<char>, i64> {
    Map::new(
        |k: Seq<char>| a.contains_key(k) || b.contains_key(k),
        |k: Seq<char>| (count_of(a, k) + count_of(b, k)) as i64,
    )
}

/// Adding `b`'s numbers to `a`'s stays within the range of `i64`.
pub open spec fn merge_fits(a: Map<Seq<char>, i64>, b: Map<Seq<char>, i64>) -> bool {
    forall|k: Seq<char>| #[trigger] b.contains_key(k) ==> i64::MIN <= count_of(a, k) + b[k] <= i64::MAX
}

impl CountMap {
    /// Adds each of `other`'s numbers to the number this table holds for the
    /// same key.
    pub fn merge_counts(&mut self, other: &CountMap)
        requires
            merge_fits(old(self)@, other@),
        ensures
            final(self)@ == merged(old(self)@, other@),
    {
        let es = other.entries();
        let ghost ev = entries_view(es@);
        let ghost a0 = self@;
        proof {
            lemma_entries_map(ev);
        }
        assert(merged(a0, entries_map(ev.take(0))) =~= a0) by {
            assert(ev.take(0) =~= Seq::<(Seq<char>, i64)>::empty());
        }
        let mut i: usize = 0;
        while i < es.len()
            invariant
                i <= es@.len(),
                ev == entries_view(es@),
                keys_distinct(ev),
                entries_map(ev) == other@,
                merge_fits(a0, other@),
                self@ == merged(a0, entries_map(ev.take(i as int))),
            decreases es.len() - i,
        {
            let k = es[i].0.clone();
            let v = es[i].1;
            let ghost pre = ev.take(i as int);
            let ghost kv = k@;
            assert(ev[i as int] == (kv, v));
            assert(keys_distinct(pre));
            proof {
                lemma_entries_map(pre);
                lemma_entries_map(ev);
            }
            assert(!entries_map(pre).contains_key(kv)) by {
                if entries_map(pre).contains_key(kv) {
                    let j = choose|j: int| 0 <= j < pre.len() && pre[j].0 == kv;
                    assert(ev[j].0 == ev[i as int].0);
                }
            }
            assert(other@.contains_key(kv)) by {
                assert(entries_map(ev).contains_key(ev[i as int].0));
            }
            assert(other@[kv] == v);
            assert(count_of(self@, kv) == count_of(a0, kv));
            self.add(k, v);
            assert(ev.take(i + 1).drop_last() =~= pre);
            assert(ev.take(i + 1).last() == (kv, v));
            assert(self@ =~= merged(a0, entries_map(ev.take(i + 1))));
            i = i + 1;
        }
        assert(ev.take(es@.len() as int) =~= ev);
    }
}

proof fn lemma_entries_map_insert(s: Seq<(Seq<char>, i64)>, p: int, e: (Seq<char>, i64))
    requires
        keys_distinct(s),
        0 <= p <= s.len(),
        forall|j: int| 0 <= j < s.len() ==> s[j].0 != e.0,
    ensures
        keys_distinct(s.insert(p, e)),
        entries_map(s.insert(p, e)) == entries_map(s).insert(e.0, e.1),
{
    let t = s.insert(p, e);
    assert forall|a: int, b: int| 0 <= a < t.len() && 0 <= b < t.len() && a != b implies t[a].0 != t[b].0 by {
        let sa = if a < p { a } else { a - 1 };
        let sb = if b < p { b } else { b - 1 };
        if a != p && b != p {
            assert(t[a] == s[sa]);
            assert(t[b] == s[sb]);
        } else if a == p {
            assert(t[b] == s[sb]);
        } else {
            assert(t[a] == s[sa]);
        }
    }
    lemma_entries_map(s);
    lemma_entries_map(t);
    let m = entries_map(s).insert(e.0, e.1);
    assert forall|k: Seq<char>| #[trigger] entries_map(t).contains_key(k) <==> m.contains_key(k) by {
        if entries_map(t).contains_key(k) && k != e.0 {
            let j = choose|j: int| 0 <= j < t.len() && t[j].0 == k;
            let sj = if j < p { j } else { j - 1 };
            assert(s[sj].0 == k);
        }
        if m.contains_key(k) {
            if k == e.0 {
                assert(t[p].0 == k);
            } else {
                let j = choose|j: int| 0 <= j < s.len() && s[j].0 == k;
                let tj = if j < p { j } else { j + 1 };
                assert(t[tj].0 == k);
            }
        }
    }
    assert forall|k: Seq<char>| #[trigger] entries_map(t).contains_key(k) implies entries_map(t)[k] == m[k] by {
        let j = choose|j: int| 0 <= j < t.len() && t[j].0 == k;
        assert(entries_map(t)[t[j].0] == t[j].1);
        if j != p {
            let sj = if j < p { j } else { j - 1 };
            assert(t[j] == s[sj]);
            assert(entries_map(s)[s[sj].0] == s[sj].1);
        }
    }
    assert(entries_map(t) =~= m);
}

/// The numbers of the entries never increase from one entry to the next.
pub open spec fn sorted_desc(s: Seq<(Seq<char>, i64)>) -> bool {
    forall|a: int, b: int| 0 <= a < b < s.len() ==> s[a].1 >= s[b].1
}

impl CountMap {
    /// The entries, from the largest number down.
    pub fn ranking(&self) -> (res: Vec<(String, i64)>)
        ensures
            keys_distinct(entries_view(res@)),
            entries_map(entries_view(res@)) == self@,
            sorted_desc(entries_view(res@)),
    {
        let es = self.entries();
        let ghost ev = entries_view(es@);
        let mut res: Vec<(String, i64)> = Vec::new();
        let mut i: usize = 0;
        assert(ev.take(0) =~= Seq::<(Seq<char>, i64)>::empty());
        assert(entries_map(ev.take(0)) =~= Map::<Seq<char>, i64>::empty());
        while i < es.len()
            invariant
                i <= es@.len(),
                ev == entries_view(es@),
                keys_distinct(ev),
                keys_distinct(entries_view(res@)),
                sorted_desc(entries_view(res@)),
                entries_map(entries_view(res@)) == entries_map(ev.take(i as int)),
                forall|a: int| 0 <= a < res@.len() ==> exists|b: int| 0 <= b < i && (#[trigger] entries_view(res@)[a]).0 == ev[b].0,
            decreases es.len() - i,
        {
            let k = es[i].0.clone();
            let v = es[i].1;
            let ghost rv = entries_view(res@);
            let mut p: usize = 0;
            while p < res.len() && res[p].1 >= v
                invariant
                    p <= res@.len(),
                    rv == entries_view(res@),
                    forall|a: int| 0 <= a < p ==> rv[a].1 >= v,
                decreases res.len() - p,
            {
                p = p + 1;
            }
            let ghost e = (k@, v);
            assert(ev[i as int] == e);
            assert forall|j: int| 0 <= j < rv.len() implies rv[j].0 != e.0 by {
                let b = choose|b: int| 0 <= b < i && rv[j].0 == ev[b].0;
                assert(ev[b].0 != ev[i as int].0);
            }
            proof {
                lemma_entries_map_insert(rv, p as int, e);
            }
            res.insert(p, (k, v));
            let ghost nv = entries_view(res@);
            assert(nv =~= rv.insert(p as int, e));
            assert(sorted_desc(nv)) by {
                assert forall|a: int, b: int| 0 <= a < b < nv.len() implies nv[a].1 >= nv[b].1 by {
                    if b < p {
                    } else if b == p {
                    } else if a == p {
                        assert(nv[b] == rv[b - 1]);
                        if p < rv.len() {
                            assert(rv[p as int].1 < v);
                            assert(rv[p as int].1 >= rv[b - 1].1 || p as int == b - 1);
                        }
                    } else if a < p {
                        assert(nv[b] == rv[b - 1]);
                    } else {
                        assert(nv[a] == rv[a - 1]);
                        assert(nv[b] == rv[b - 1]);
                    }
                }
            }
            assert(ev.take(i + 1).drop_last() =~= ev.take(i as int));
            assert(ev.take(i + 1).last() == e);
            assert forall|a: int| 0 <= a < nv.len() implies exists|b: int| 0 <= b < i + 1 && (#[trigger] nv[a]).0 == ev[b].0 by {
                if a == p {
                    assert(nv[a].0 == ev[i as int].0);
                } else if a < p {
                    assert(nv[a] == rv[a]);
                    let b = choose|b: int| 0 <= b < i && rv[a].0 == ev[b].0;
                } else {
                    assert(nv[a] == rv[a - 1]);
                    let b = choose|b: int| 0 <= b < i && rv[a - 1].0 == ev[b].0;
                }
            }
            i = i + 1;
        }
        assert(ev.take(es@.len() as int) =~= ev);
        res
    }
}

impl CountMap {
    /// Whether some key maps to `v`.
    pub fn contains_value(&self, v: i64) -> (res: bool)
        ensures
            res == exists|k: Seq<char>| self@.contains_key(k) && self@[k] == v,
    {
        proof {
            use_type_invariant(self);
            lemma_entries_map(entries_view(self.entries@));
        }
        let ghost ev = entries_view(self.entries@);
        let mut i: usize = 0;
        while i < self.entries.len()
            invariant
                i <= self.entries@.len(),
                ev == entries_view(self.entries@),
                forall|j: int| 0 <= j < i ==> self.entries@[j].1 != v,
            decreases self.entries.len() - i,
        {
            if self.entries[i].1 == v {
                proof {
                    use_type_invariant(self);
                    lemma_entries_map(ev);
                }
                assert(entries_map(ev)[ev[i as int].0] == ev[i as int].1);
                assert(self@.contains_key(ev[i as int].0));
                return true;
            }
            i = i + 1;
        }
        proof {
            use_type_invariant(self);
            lemma_entries_map(ev);
        }
        assert forall|k: Seq<char>| self@.contains_key(k) implies self@[k] != v by {
            let j = choose|j: int| 0 <= j < ev.len() && ev[j].0 == k;
            assert(entries_map(ev)[ev[j].0] == ev[j].1);
        }
        false
    }
}

/// A table after one more message of `user_id` is counted in it.
pub open spec fn count_step(m: Map<Seq<char>, i64>, user_id: i64) -> Map<Seq<char>, i64> {
    m.insert(int_decimal(user_id as int), (count_of(m, int_decimal(user_id as int)) + 1) as i64)
}

/// A table after one message of each of `users` is counted in it, in order.
pub open spec fn count_all(m: Map<Seq<char>, i64>, users: Seq<i64>) -> Map<Seq<char>, i64>
    decreases users.len(),
{
    if users.len() == 0 {
        m
    } else {
        count_step(count_all(m, users.drop_last()), users.last())
    }
}

/// How often `u` occurs in `users`.
pub open spec fn occurrences(users: Seq<i64>, u: i64) -> nat
    decreases users.len(),
{
    if users.len() == 0 {
        0
    } else {
        occurrences(users.drop_last(), u) + if users.last() == u {
            1nat
        } else {
            0nat
        }
    }
}

/// Counts one more message of `user_id` in a group's table of the day.
pub fn add_cnt(data: &mut CountMap, user_id: i64)
    requires
        count_of(old(data)@, int_decimal(user_id as int)) < i64::MAX,
    ensures
        final(data)@ == count_step(old(data)@, user_id),
{
    let key = i64_to_string(user_id);
    data.add(key, 1);
}

/// The all-time table that belongs with a table of the day: the file name
/// after `./data/daily`, put after `./data/total`.
pub fn total_data_path(daily_path: &str) -> (p: String)
    ensures
        p@ == "./data/total"@ + (if has_prefix(daily_path@, "./data/daily"@) {
            daily_path@.skip("./data/daily"@.len() as int)
        } else {
            daily_path@
        }),
{
    let group_file = remove_prefix(daily_path, "./data/daily");
    String::from_str("./data/total").concat(group_file)
}

/// Moves the counts of the day into the all-time table: each user's count of
/// the day is added to their all-time count, and the table of the day is
/// emptied.
pub fn transfer_daily_to_total(daily: &mut CountMap, total: &mut CountMap)
    requires
        merge_fits(old(total)@, old(daily)@),
    ensures
        final(total)@ == merged(old(total)@, old(daily)@),
        final(daily)@ == Map::<Seq<char>, i64>::empty(),
{
    total.merge_counts(daily);
    daily.clear();
}

/// The count above which a member counts as active.
pub const ACTIVE_THRESHOLD: i64 = 200;

/// Every key whose count is above the active threshold is a number.
pub open spec fn active_keys_are_ids(total: Map<Seq<char>, i64>) -> bool {
    forall|k: Seq<char>|
        #[trigger] total.contains_key(k) && total[k] > ACTIVE_THRESHOLD ==> parse_i64_spec(k) is Some
}

/// `w` may be drawn as the partner of `user_id`: an active member of the group,
/// not `user_id`, and nobody's partner yet.
pub open spec fn is_wife_candidate(
    total: Map<Seq<char>, i64>,
    wives: Map<Seq<char>, i64>,
    user_id: i64,
    w: i64,
) -> bool {
    &&& exists|k: Seq<char>|
        #[trigger] total.contains_key(k) && total[k] > ACTIVE_THRESHOLD && parse_i64_spec(k) == Some(w)
    &&& w != user_id
    &&& !(exists|k: Seq<char>| wives.contains_key(k) && wives[k] == w)
}

/// The members that may be drawn as the partner of `user_id`.
pub fn wife_candidates(total: &CountMap, wives: &CountMap, user_id: i64) -> (res: Vec<i64>)
    requires
        active_keys_are_ids(total@),
    ensures
        forall|w: i64| res@.contains(w) <==> is_wife_candidate(total@, wives@, user_id, w),
{
    let es = total.entries();
    let ghost ev = entries_view(es@);
    proof {
        lemma_entries_map(ev);
    }
    let mut res: Vec<i64> = Vec::new();
    let mut i: usize = 0;
    while i < es.len()
        invariant
            i <= es@.len(),
            ev == entries_view(es@),
            keys_distinct(ev),
            entries_map(ev) == total@,
            active_keys_are_ids(total@),
            forall|k: Seq<char>|
                #[trigger] entries_map(ev).contains_key(k) <==> exists|j: int| 0 <= j < ev.len() && ev[j].0 == k,
            forall|j: int| 0 <= j < ev.len() ==> #[trigger] entries_map(ev)[ev[j].0] == ev[j].1,
            forall|w: i64|
                res@.contains(w) <==> (is_wife_candidate(total@, wives@, user_id, w) && exists|j: int|
                    0 <= j < i && ev[j].1 > ACTIVE_THRESHOLD && parse_i64_spec(#[trigger] ev[j].0) == Some(w)),
        decreases es.len() - i,
    {
        let v = es[i].1;
        let ghost k = ev[i as int].0;
        assert(total@.contains_key(k));
        assert(total@[k] == v);
        if v > ACTIVE_THRESHOLD {
            let parsed = parse_i64(es[i].0.as_str());
            assert(parsed == parse_i64_spec(k));
            let x = match parsed {
                Some(x) => x,
                None => {
                    assert(false);
                    0
                },
            };
            if x != user_id && !wives.contains_value(x) {
                let ghost prev = res@;
                res.push(x);
                assert forall|w: i64| res@.contains(w) <==> (is_wife_candidate(total@, wives@, user_id, w)
                    && exists|j: int| 0 <= j < i + 1 && ev[j].1 > ACTIVE_THRESHOLD && parse_i64_spec(#[trigger] ev[j].0) == Some(w)) by {
                    if res@.contains(w) && w != x {
                        assert(prev.contains(w)) by {
                            let a = choose|a: int| 0 <= a < res@.len() && res@[a] == w;
                            assert(prev[a] == w);
                        }
                    }
                    if w == x {
                        assert(res@[prev.len() as int] == x);
                    } else if is_wife_candidate(total@, wives@, user_id, w) && exists|j: int| 0 <= j < i + 1 && ev[j].1 > ACTIVE_THRESHOLD && parse_i64_spec(#[trigger] ev[j].0) == Some(w) {
                        let j = choose|j: int| 0 <= j < i + 1 && ev[j].1 > ACTIVE_THRESHOLD && parse_i64_spec(#[trigger] ev[j].0) == Some(w);
                        assert(j < i);
                        assert(prev.contains(w));
                        let a = choose|a: int| 0 <= a < prev.len() && prev[a] == w;
                        assert(res@[a] == w);
                    }
                }
            } else {
                assert forall|w: i64| res@.contains(w) <==> (is_wife_candidate(total@, wives@, user_id, w)
                    && exists|j: int| 0 <= j < i + 1 && ev[j].1 > ACTIVE_THRESHOLD && parse_i64_spec(#[trigger] ev[j].0) == Some(w)) by {
                    if is_wife_candidate(total@, wives@, user_id, w) && exists|j: int| 0 <= j < i + 1 && ev[j].1 > ACTIVE_THRESHOLD && parse_i64_spec(#[trigger] ev[j].0) == Some(w) {
                        let j = choose|j: int| 0 <= j < i + 1 && ev[j].1 > ACTIVE_THRESHOLD && parse_i64_spec(#[trigger] ev[j].0) == Some(w);
                        if j == i {
                            assert(w == x);
                        }
                    }
                }
            }
        }
        i = i + 1;
    }
    assert forall|w: i64| is_wife_candidate(total@, wives@, user_id, w) implies res@.contains(w) by {
        let k = choose|k: Seq<char>| #[trigger] total@.contains_key(k) && total@[k] > ACTIVE_THRESHOLD && parse_i64_spec(k) == Some(w);
        let j = choose|j: int| 0 <= j < ev.len() && ev[j].0 == k;
        assert(parse_i64_spec(ev[j].0) == Some(w));
    }
    res
}

/// A table gives back what was written to it: after `insert` of `v` under
/// `k`, `get` of `k` yields `v`, and every other key keeps what it held.
pub proof fn lemma_get_after_insert(m: Map<Seq<char>, i64>, k: Seq<char>, v: i64, other: Seq<char>)
    requires
        other != k,
    ensures
        m.insert(k, v).contains_key(k),
        m.insert(k, v)[k] == v,
        m.insert(k, v).contains_key(other) == m.contains_key(other),
        m.contains_key(other) ==> m.insert(k, v)[other] == m[other],
{
}

/// The daily transfer loses and invents nothing: for every user, the all-time
/// count after the transfer plus the (now empty) count of the day equals the
/// two counts before it, and a user appears in the all-time table afterwards
/// exactly when they appeared in either table before.
pub proof fn lemma_transfer_conserves_counts(total: Map<Seq<char>, i64>, daily: Map<Seq<char>, i64>)
    requires
        merge_fits(total, daily),
    ensures
        forall|k: Seq<char>|
            count_of(#[trigger] merged(total, daily), k) + count_of(Map::<Seq<char>, i64>::empty(), k)
                == count_of(total, k) + count_of(daily, k),
        forall|k: Seq<char>|
            #[trigger] merged(total, daily).contains_key(k) <==> total.contains_key(k) || daily.contains_key(k),
{
    assert forall|k: Seq<char>|
        count_of(#[trigger] merged(total, daily), k) + count_of(Map::<Seq<char>, i64>::empty(), k)
            == count_of(total, k) + count_of(daily, k) by {
        if daily.contains_key(k) {
            assert(i64::MIN <= count_of(total, k) + daily[k] <= i64::MAX);
        } else if total.contains_key(k) {
            assert(count_of(total, k) + count_of(daily, k) == total[k]);
        }
    }
}

proof fn lemma_int_decimal_injective(a: i64, b: i64)
    ensures
        int_decimal(a as int) == int_decimal(b as int) ==> a == b,
{
    lemma_parse_i64_of_decimal(a);
    lemma_parse_i64_of_decimal(b);
}

proof fn lemma_occurrences_bounded(users: Seq<i64>, u: i64)
    ensures
        occurrences(users, u) <= users.len(),
    decreases users.len(),
{
    if users.len() > 0 {
        lemma_occurrences_bounded(users.drop_last(), u);
    }
}

/// What counting a run of messages does: each user's count grows by the
/// number of their messages, a user appears once they have a count or a
/// message, and every key that is no user's id keeps what it held.
pub proof fn lemma_count_all(m: Map<Seq<char>, i64>, users: Seq<i64>)
    requires
        forall|u: i64| count_of(m, #[trigger] int_decimal(u as int)) + users.len() <= i64::MAX,
    ensures
        forall|u: i64|
            #[trigger] count_all(m, users).contains_key(int_decimal(u as int)) <==> (m.contains_key(
                int_decimal(u as int),
            ) || occurrences(users, u) > 0),
        forall|u: i64|
            count_of(#[trigger] count_all(m, users), int_decimal(u as int)) == count_of(
                m,
                int_decimal(u as int),
            ) + occurrences(users, u),
        forall|k: Seq<char>|
            (forall|j: int| 0 <= j < users.len() ==> int_decimal(#[trigger] users[j] as int) != k)
                ==> (#[trigger] count_all(m, users).contains_key(k) == m.contains_key(k) && (
            m.contains_key(k) ==> count_all(m, users)[k] == m[k])),
    decreases users.len(),
{
    if users.len() > 0 {
        let prev = users.drop_last();
        let x = users.last();
        lemma_count_all(m, prev);
        let before = count_all(m, prev);
        assert forall|u: i64|
            #[trigger] count_all(m, users).contains_key(int_decimal(u as int)) <==> (m.contains_key(
                int_decimal(u as int),
            ) || occurrences(users, u) > 0) by {
            lemma_int_decimal_injective(u, x);
            assert(before.contains_key(int_decimal(u as int)) <==> (m.contains_key(int_decimal(u as int))
                || occurrences(prev, u) > 0));
        }
        assert forall|u: i64|
            count_of(#[trigger] count_all(m, users), int_decimal(u as int)) == count_of(
                m,
                int_decimal(u as int),
            ) + occurrences(users, u) by {
            lemma_int_decimal_injective(u, x);
            lemma_occurrences_bounded(prev, x);
            assert(count_of(before, int_decimal(u as int)) == count_of(m, int_decimal(u as int))
                + occurrences(prev, u));
            assert(count_of(before, int_decimal(x as int)) == count_of(m, int_decimal(x as int))
                + occurrences(prev, x));
            assert(count_of(m, int_decimal(x as int)) + users.len() <= i64::MAX);
        }
        assert forall|k: Seq<char>|
            (forall|j: int| 0 <= j < users.len() ==> int_decimal(#[trigger] users[j] as int) != k)
                implies (#[trigger] count_all(m, users).contains_key(k) == m.contains_key(k) && (
            m.contains_key(k) ==> count_all(m, users)[k] == m[k])) by {
            assert(int_decimal(users[users.len() - 1] as int) != k);
            assert forall|j: int| 0 <= j < prev.len() implies int_decimal(#[trigger] prev[j] as int) != k by {
                assert(prev[j] == users[j]);
            }
        }
    }
}

/// Counting messages does not depend on their order: two runs of messages in
/// which every user has the same number of messages leave the same table.
pub proof fn lemma_counting_order_does_not_matter(m: Map<Seq<char>, i64>, a: Seq<i64>, b: Seq<i64>)
    requires
        forall|u: i64| occurrences(a, u) == occurrences(b, u),
        forall|u: i64| count_of(m, #[trigger] int_decimal(u as int)) + a.len() <= i64::MAX,
        forall|u: i64| count_of(m, #[trigger] int_decimal(u as int)) + b.len() <= i64::MAX,
    ensures
        count_all(m, a) == count_all(m, b),
{
    lemma_count_all(m, a);
    lemma_count_all(m, b);
    let ca = count_all(m, a);
    let cb = count_all(m, b);
    assert forall|k: Seq<char>| #[trigger] ca.contains_key(k) == cb.contains_key(k) && (ca.contains_key(k) ==> ca[k] == cb[k]) by {
        if exists|u: i64| int_decimal(u as int) == k {
            let u = choose|u: i64| int_decimal(u as int) == k;
            assert(ca.contains_key(int_decimal(u as int)) == cb.contains_key(int_decimal(u as int)));
            assert(count_of(ca, int_decimal(u as int)) == count_of(cb, int_decimal(u as int)));
        } else {
            assert forall|j: int| 0 <= j < a.len() implies int_decimal(#[trigger] a[j] as int) != k by {
            }
            assert forall|j: int| 0 <= j < b.len() implies int_decimal(#[trigger] b[j] as int) != k by {
            }
        }
    }
    assert(ca =~= cb);
}

/// The table that `serde_json` reads from the JSON text `text` as a
/// `HashMap<String, i64>`, or `None` when the text is not such an object.
pub uninterp spec fn json_count_table(text: Seq<char>) -> Option<Map<Seq<char>, i64>>;

/// `serde_json::from_str::<HashMap<String, i64>>`, which reads a JSON object
/// of integers; its entries come out in the map's order. What it reads is
/// named by `json_count_table`.
#[verifier::external_body]
fn parse_json_counts(text: &str) -> (r: Option<Vec<(String, i64)>>)
    ensures
        r is Some <==> json_count_table(text@) is Some,
        r matches Some(v) ==> keys_distinct(entries_view(v@)) && entries_map(entries_view(v@))
            == json_count_table(text@)->0,
{
    serde_json::from_str::<HashMap<String, i64>>(text).ok().map(|m| m.into_iter().collect())
}

/// `serde_json::to_string` on the `HashMap<String, i64>` collected from
/// `entries` (later entries winning). Serialising a map with string keys
/// cannot fail; the text is never empty, and `serde_json` reads the same
/// table back from it.
#[verifier::external_body]
fn write_json_counts(entries: &Vec<(String, i64)>) -> (s: String)
    ensures
        s@.len() > 0,
        json_count_table(s@) == Some(entries_map(entries_view(entries@))),
{
    serde_json::to_string(&entries.iter().cloned().collect::<HashMap<String, i64>>()).unwrap()
}

/// What a table file holds: nothing means an empty table; otherwise the JSON
/// object of counts it holds, if it holds one.
pub open spec fn count_table_of(contents: Seq<char>) -> Option<Map<Seq<char>, i64>> {
    if contents.len() == 0 {
        Some(Map::empty())
    } else {
        json_count_table(contents)
    }
}

impl CountMap {
    /// The table of a sequence of entries, later entries winning.
    pub fn from_entries(entries: Vec<(String, i64)>) -> (t: CountMap)
        ensures
            t@ == entries_map(entries_view(entries@)),
    {
        let ghost ev = entries_view(entries@);
        let mut t = CountMap::new();
        let mut i: usize = 0;
        assert(ev.take(0) =~= Seq::<(Seq<char>, i64)>::empty());
        while i < entries.len()
            invariant
                i <= entries@.len(),
                ev == entries_view(entries@),
                t@ == entries_map(ev.take(i as int)),
            decreases entries.len() - i,
        {
            let k = entries[i].0.clone();
            let v = entries[i].1;
            assert(ev.take(i + 1).drop_last() =~= ev.take(i as int));
            assert(ev.take(i + 1).last() == (k@, v));
            t.insert(k, v);
            i = i + 1;
        }
        assert(ev.take(entries@.len() as int) =~= ev);
        t
    }

    /// The table written as a JSON object of counts.
    pub fn to_json(&self) -> (s: String)
        ensures
            count_table_of(s@) == Some(self@),
    {
        let es = self.entries();
        write_json_counts(&es)
    }
}

/// Reads a table from the contents of its file.
pub fn read_count_table(contents: &str) -> (r: Option<CountMap>)
    ensures
        match count_table_of(contents@) {
            Some(m) => r matches Some(t) && t@ == m,
            None => r is None,
        },
{
    if contents.is_empty() {
        return Some(CountMap::new());
    }
    match parse_json_counts(contents) {
        Some(v) => Some(CountMap::from_entries(v)),
        None => None,
    }
}

} // verus!

verus! {

/// The partner table names `v` as somebody's partner.
pub open spec fn names_partner(wives: Map<Seq<char>, i64>, v: i64) -> bool {
    exists|k: Seq<char>| wives.contains_key(k) && wives[k] == v
}

/// Who may be drawn as a partner depends on the table of partners only
/// through the partners it records, not through who drew them: two partner
/// tables that record the same partners leave the same candidates.
pub proof fn lemma_candidates_depend_on_partners_only(
    total: Map<Seq<char>, i64>,
    wives1: Map<Seq<char>, i64>,
    wives2: Map<Seq<char>, i64>,
    user_id: i64,
    w: i64,
)
    requires
        forall|v: i64| #[trigger] names_partner(wives1, v) == names_partner(wives2, v),
    ensures
        is_wife_candidate(total, wives1, user_id, w) == is_wife_candidate(total, wives2, user_id, w),
{
    assert(names_partner(wives1, w) == names_partner(wives2, w));
}

/// A member who draws a partner other than themself may still be drawn:
/// recording the draw of `p` by `w` leaves unchanged whether `w` is a
/// candidate.
pub proof fn lemma_own_draw_keeps_candidate(
    total: Map<Seq<char>, i64>,
    wives: Map<Seq<char>, i64>,
    user_id: i64,
    w: i64,
    p: i64,
)
    requires
        p != w,
        !wives.contains_key(int_decimal(w as int)),
    ensures
        is_wife_candidate(total, wives.insert(int_decimal(w as int), p), user_id, w)
            == is_wife_candidate(total, wives, user_id, w),
{
    let key = int_decimal(w as int);
    let after = wives.insert(key, p);
    if names_partner(after, w) {
        let k = choose|k: Seq<char>| after.contains_key(k) && after[k] == w;
        assert(k != key);
        assert(wives.contains_key(k) && wives[k] == w);
    }
    if names_partner(wives, w) {
        let k = choose|k: Seq<char>| wives.contains_key(k) && wives[k] == w;
        assert(k != key);
        assert(after.contains_key(k) && after[k] == w);
    }
    assert(names_partner(after, w) == names_partner(wives, w));
}

/// Who may be drawn as a partner: never the user themself, nor anybody the
/// partner table already names; a member kept under their own number with a
/// count above 200 who is neither of these may be drawn; and a member whose
/// every count is at most 200 may not.
pub proof fn lemma_who_may_be_drawn(
    total: Map<Seq<char>, i64>,
    wives: Map<Seq<char>, i64>,
    user_id: i64,
    w: i64,
)
    ensures
        !is_wife_candidate(total, wives, user_id, user_id),
        names_partner(wives, w) ==> !is_wife_candidate(total, wives, user_id, w),
        (total.contains_key(int_decimal(w as int)) && total[int_decimal(w as int)] > 200 && w != user_id
            && !names_partner(wives, w)) ==> is_wife_candidate(total, wives, user_id, w),
        (forall|k: Seq<char>| #[trigger] total.contains_key(k) && parse_i64_spec(k) == Some(w) ==> total[k] <= 200)
            ==> !is_wife_candidate(total, wives, user_id, w),
{
    lemma_parse_i64_of_decimal(w);
}

} // verus!
