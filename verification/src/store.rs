//! The Category Store: an immutable mapping from dataset name to
//! dataset record, and the best-effort loading step that builds one
//! from a sequence of per-file load attempts.

use vstd::prelude::*;
use vstd::string::StrSliceExecFns;

use crate::data::DatasetRecord;
use crate::data::RecordModel;

verus! {

/// The mapping that a sequence of named records denotes: each entry
/// binds its name, and a later entry overrides an earlier one with
/// the same name.
pub open spec fn store_map(s: Seq<(String, DatasetRecord)>) -> Map<Seq<char>, RecordModel>
    decreases s.len(),
{
    if s.len() == 0 {
        Map::empty()
    } else {
        store_map(s.drop_last()).insert(s.last().0@, s.last().1@)
    }
}

/// Whether the names of a sequence of entries are pairwise distinct.
pub open spec fn unique_names(s: Seq<(String, DatasetRecord)>) -> bool {
    forall|i: int, j: int| 0 <= i < j < s.len() ==> s[i].0@ != s[j].0@
}

/// The characters of the file extension the loader strips.
pub open spec fn json_suffix() -> Seq<char> {
    seq!['.', 'j', 's', 'o', 'n']
}

/// The lookup key a source file name yields: the name with a trailing
/// `.json` extension removed, or the name unchanged when it carries
/// no such extension. No other normalization is applied.
pub open spec fn spec_dataset_key(name: Seq<char>) -> Seq<char> {
    if name.len() >= 5 && name.subrange(name.len() - 5, name.len() as int) == json_suffix() {
        name.subrange(0, name.len() - 5)
    } else {
        name
    }
}

/// Executable counterpart of [`spec_dataset_key`].
pub fn dataset_key(file_name: &str) -> (key: String)
    ensures
        key@ == spec_dataset_key(file_name@),
{
    let n = file_name.unicode_len();
    if n >= 5 && file_name.get_char(n - 5) == '.' && file_name.get_char(n - 4) == 'j'
        && file_name.get_char(n - 3) == 's' && file_name.get_char(n - 2) == 'o'
        && file_name.get_char(n - 1) == 'n' {
        proof {
            assert(file_name@.subrange(n - 5, n as int) =~= json_suffix());
        }
        let stem = file_name.substring_char(0, n - 5);
        stem.to_owned()
    } else {
        proof {
            let v = file_name@;
            if v.len() >= 5 && v.subrange(v.len() - 5, v.len() as int) == json_suffix() {
                let tail = v.subrange(v.len() - 5, v.len() as int);
                assert(v[n - 5] == tail[0]);
                assert(v[n - 4] == tail[1]);
                assert(v[n - 3] == tail[2]);
                assert(v[n - 2] == tail[3]);
                assert(v[n - 1] == tail[4]);
                assert(tail[0] == '.' && tail[1] == 'j' && tail[2] == 's' && tail[3] == 'o'
                    && tail[4] == 'n');
            }
        }
        file_name.to_owned()
    }
}

/// The mapping that a sequence of load attempts yields: a successful
/// attempt binds the key its file name yields to the record it
/// carries; a failed attempt binds nothing.
pub open spec fn loaded_map(attempts: Seq<(String, Option<DatasetRecord>)>) -> Map<
    Seq<char>,
    RecordModel,
>
    decreases attempts.len(),
{
    if attempts.len() == 0 {
        Map::empty()
    } else {
        let m = loaded_map(attempts.drop_last());
        match attempts.last().1 {
            Some(record) => m.insert(spec_dataset_key(attempts.last().0@), record@),
            None => m,
        }
    }
}

/// A name is bound in the mapping exactly when some entry carries it.
proof fn lemma_store_map_contains(s: Seq<(String, DatasetRecord)>, k: Seq<char>)
    ensures
        store_map(s).contains_key(k) <==> exists|j: int| 0 <= j < s.len() && s[j].0@ == k,
    decreases s.len(),
{
    if s.len() > 0 {
        lemma_store_map_contains(s.drop_last(), k);
        if s.last().0@ == k {
            assert(s[s.len() - 1].0@ == k);
        } else {
            if exists|j: int| 0 <= j < s.len() && s[j].0@ == k {
                let j = choose|j: int| 0 <= j < s.len() && s[j].0@ == k;
                assert(s.drop_last()[j] == s[j]);
            }
            if exists|j: int| 0 <= j < s.drop_last().len() && s.drop_last()[j].0@ == k {
                let j = choose|j: int| 0 <= j < s.drop_last().len() && s.drop_last()[j].0@ == k;
                assert(s[j] == s.drop_last()[j]);
            }
        }
    }
}

/// An entry whose name recurs in no later entry gives the mapping's
/// value at that name.
proof fn lemma_store_map_value(s: Seq<(String, DatasetRecord)>, i: int)
    requires
        0 <= i < s.len(),
        forall|j: int| i < j < s.len() ==> s[j].0@ != s[i].0@,
    ensures
        store_map(s).contains_key(s[i].0@),
        store_map(s)[s[i].0@] == s[i].1@,
    decreases s.len(),
{
    if i == s.len() - 1 {
        assert(s.last() == s[i]);
    } else {
        assert(s.drop_last()[i] == s[i]);
        assert forall|j: int| i < j < s.drop_last().len() implies s.drop_last()[j].0@
            != s.drop_last()[i].0@ by {
            assert(s.drop_last()[j] == s[j]);
        }
        lemma_store_map_value(s.drop_last(), i);
        assert(s.last().0@ != s[i].0@);
    }
}

/// Removing the only entry that carries a name removes exactly that
/// name's binding from the mapping.
proof fn lemma_store_map_remove(s: Seq<(String, DatasetRecord)>, i: int)
    requires
        0 <= i < s.len(),
        forall|j: int| 0 <= j < s.len() && j != i ==> s[j].0@ != s[i].0@,
    ensures
        store_map(s.remove(i)) == store_map(s).remove(s[i].0@),
    decreases s.len(),
{
    let k = s[i].0@;
    s.remove_ensures(i);
    if i == s.len() - 1 {
        assert(s.remove(i) =~= s.drop_last());
        lemma_store_map_contains(s.drop_last(), k);
        assert forall|j: int| 0 <= j < s.drop_last().len() implies s.drop_last()[j].0@ != k by {
            assert(s.drop_last()[j] == s[j]);
        }
        assert(!store_map(s.drop_last()).contains_key(k));
        assert(store_map(s).remove(k) =~= store_map(s.drop_last()));
    } else {
        let d = s.drop_last();
        assert(d[i] == s[i]);
        assert forall|j: int| 0 <= j < d.len() && j != i implies d[j].0@ != d[i].0@ by {
            assert(d[j] == s[j]);
        }
        lemma_store_map_remove(d, i);
        let t = s.remove(i);
        assert(t.drop_last() =~= d.remove(i));
        assert(t.last() == s.last());
        assert(store_map(t) == store_map(d).remove(k).insert(s.last().0@, s.last().1@));
        assert(s.last().0@ != k);
        assert(store_map(d).remove(k).insert(s.last().0@, s.last().1@) =~= store_map(
            d,
        ).insert(s.last().0@, s.last().1@).remove(k));
    }
}

/// With pairwise-distinct names the mapping binds exactly one name
/// per entry.
proof fn lemma_store_map_count(s: Seq<(String, DatasetRecord)>)
    requires
        unique_names(s),
    ensures
        store_map(s).dom().finite(),
        store_map(s).dom().len() == s.len(),
    decreases s.len(),
{
    broadcast use vstd::set::group_set_axioms;

    if s.len() == 0 {
        assert(store_map(s).dom() =~= Set::<Seq<char>>::empty());
    } else {
        let d = s.drop_last();
        assert forall|i: int, j: int| 0 <= i < j < d.len() implies d[i].0@ != d[j].0@ by {
            assert(d[i] == s[i]);
            assert(d[j] == s[j]);
        }
        lemma_store_map_count(d);
        lemma_store_map_contains(d, s.last().0@);
        assert forall|j: int| 0 <= j < d.len() implies d[j].0@ != s.last().0@ by {
            assert(d[j] == s[j]);
            assert(s[j].0@ != s[s.len() - 1].0@);
        }
        assert(!store_map(d).contains_key(s.last().0@));
        assert(store_map(s).dom() =~= store_map(d).dom().insert(s.last().0@));
    }
}

/// Removing an entry keeps the remaining names pairwise distinct, and
/// no remaining entry carries the removed entry's name when names
/// were distinct to begin with.
proof fn lemma_remove_keeps_unique(s: Seq<(String, DatasetRecord)>, i: int)
    requires
        unique_names(s),
        0 <= i < s.len(),
    ensures
        unique_names(s.remove(i)),
        forall|j: int| 0 <= j < s.remove(i).len() ==> #[trigger] s.remove(i)[j].0@ != s[i].0@,
{
    s.remove_ensures(i);
    let t = s.remove(i);
    assert forall|j: int| 0 <= j < t.len() implies t[j].0@ != s[i].0@ by {
        if j < i {
            assert(t[j] == s[j]);
        } else {
            assert(t[j] == s[j + 1]);
        }
    }
    assert forall|a: int, b: int| 0 <= a < b < t.len() implies t[a].0@ != t[b].0@ by {
        if a < i {
            assert(t[a] == s[a]);
        } else {
            assert(t[a] == s[a + 1]);
        }
        if b < i {
            assert(t[b] == s[b]);
        } else {
            assert(t[b] == s[b + 1]);
        }
    }
}

/// An immutable mapping from dataset name to dataset record for one
/// category. Built once by the loader, then only read.
pub struct CategoryStore {
    entries: Vec<(String, DatasetRecord)>,
}

impl View for CategoryStore {
    type V = Map<Seq<char>, RecordModel>;

    closed spec fn view(&self) -> Map<Seq<char>, RecordModel> {
        store_map(self.entries@)
    }
}

impl CategoryStore {
    #[verifier::type_invariant]
    closed spec fn inv(self) -> bool {
        unique_names(self.entries@)
    }

    /// A store with no datasets.
    pub fn new() -> (s: CategoryStore)
        ensures
            s@ == Map::<Seq<char>, RecordModel>::empty(),
    {
        CategoryStore { entries: Vec::new() }
    }

    /// Binds `name` to `record`, overriding any record the name was
    /// bound to before.
    pub fn insert(&mut self, name: String, record: DatasetRecord)
        ensures
            final(self)@ == old(self)@.insert(name@, record@),
    {
        proof {
            use_type_invariant(&*self);
        }
        let mut entries: Vec<(String, DatasetRecord)> = Vec::new();
        std::mem::swap(&mut entries, &mut self.entries);
        let ghost s0 = entries@;
        let mut i: usize = 0;
        let mut found: Option<usize> = None;
        while i < entries.len()
            invariant
                entries@ == s0,
                unique_names(s0),
                i <= s0.len(),
                match found {
                    Some(fi) => fi < i && s0[fi as int].0@ == name@,
                    None => forall|j: int| 0 <= j < i ==> s0[j].0@ != name@,
                },
            decreases s0.len() - i,
        {
            if found.is_none() && entries[i].0 == name {
                found = Some(i);
            }
            i += 1;
        }
        match found {
            Some(fi) => {
                proof {
                    assert forall|j: int|
                        0 <= j < s0.len() && j != fi as int implies s0[j].0@
                        != s0[fi as int].0@ by {
                        if j < fi as int {
                            assert(s0[j].0@ != s0[fi as int].0@);
                        }
                    }
                    lemma_store_map_remove(s0, fi as int);
                    lemma_remove_keeps_unique(s0, fi as int);
                }
                let _replaced = entries.remove(fi);
                entries.push((name, record));
                proof {
                    let t = s0.remove(fi as int);
                    assert(entries@.drop_last() =~= t);
                    assert(entries@.last() == (name, record));
                    assert(store_map(entries@) == store_map(t).insert(name@, record@));
                    assert(store_map(s0).remove(s0[fi as int].0@).insert(name@, record@)
                        =~= store_map(s0).insert(name@, record@));
                    assert forall|a: int, b: int|
                        0 <= a < b < entries@.len() implies entries@[a].0@ != entries@[b].0@ by {
                        if b < entries@.len() - 1 {
                            assert(entries@[a] == t[a]);
                            assert(entries@[b] == t[b]);
                        } else {
                            assert(entries@[a] == t[a]);
                            assert(t[a].0@ != s0[fi as int].0@);
                        }
                    }
                }
            },
            None => {
                entries.push((name, record));
                proof {
                    assert(entries@.drop_last() =~= s0);
                    assert(entries@.last() == (name, record));
                    assert forall|a: int, b: int|
                        0 <= a < b < entries@.len() implies entries@[a].0@ != entries@[b].0@ by {
                        assert(entries@[a] == s0[a]);
                        if b < entries@.len() - 1 {
                            assert(entries@[b] == s0[b]);
                        }
                    }
                }
            },
        }
        self.entries = entries;
    }

    /// Exact, case-sensitive lookup of a dataset by name; `None` when
    /// the name is absent.
    pub fn lookup<'a>(&'a self, name: &String) -> (r: Option<&'a DatasetRecord>)
        ensures
            match r {
                Some(record) => self@.contains_key(name@) && record@ == self@[name@],
                None => !self@.contains_key(name@),
            },
    {
        proof {
            use_type_invariant(&*self);
        }
        let ghost s0 = self.entries@;
        let mut i: usize = 0;
        while i < self.entries.len()
            invariant
                i <= s0.len(),
                s0 == self.entries@,
                unique_names(s0),
                forall|j: int| 0 <= j < i ==> s0[j].0@ != name@,
            decreases s0.len() - i,
        {
            if self.entries[i].0 == *name {
                proof {
                    assert forall|j: int| i < j < s0.len() implies s0[j].0@ != s0[i as int].0@ by {
                        assert(s0[i as int].0@ != s0[j].0@);
                    }
                    lemma_store_map_value(s0, i as int);
                }
                return Some(&self.entries[i].1);
            }
            i += 1;
        }
        proof {
            lemma_store_map_contains(s0, name@);
        }
        None
    }

    /// Builds a category's store from a sequence of best-effort load
    /// attempts: each attempt pairs a source file name with the
    /// record read and parsed from it, or `None` where reading or
    /// parsing failed. Failed attempts are skipped; successful ones
    /// are inserted in order under the key their file name yields, so
    /// on a key collision the last attempt wins.
    pub fn from_attempts(attempts: Vec<(String, Option<DatasetRecord>)>) -> (store: CategoryStore)
        ensures
            store@ == loaded_map(attempts@),
    {
        let ghost all = attempts@;
        let mut rest = attempts;
        let mut store = CategoryStore::new();
        proof {
            assert(all.take(0) =~= Seq::<(String, Option<DatasetRecord>)>::empty());
            assert(all.subrange(0, all.len() as int) =~= all);
        }
        while rest.len() > 0
            invariant
                rest@.len() <= all.len(),
                rest@ == all.subrange(all.len() - rest@.len(), all.len() as int),
                store@ == loaded_map(all.take(all.len() - rest@.len())),
            decreases rest@.len(),
        {
            let ghost p = all.len() - rest@.len();
            let ghost r0 = rest@;
            proof {
                assert(r0[0] == all.subrange(p, all.len() as int)[0]);
                assert(r0[0] == all[p]);
            }
            let (name, outcome) = rest.remove(0);
            match outcome {
                Some(record) => {
                    let key = dataset_key(name.as_str());
                    store.insert(key, record);
                },
                None => {},
            }
            proof {
                r0.remove_ensures(0);
                assert forall|j: int| 0 <= j < rest@.len() implies rest@[j] == all.subrange(
                    p + 1,
                    all.len() as int,
                )[j] by {
                    assert(rest@[j] == r0[j + 1]);
                    assert(r0[j + 1] == all.subrange(p, all.len() as int)[j + 1]);
                }
                assert(rest@ =~= all.subrange(p + 1, all.len() as int));
                assert(all.take(p + 1).drop_last() =~= all.take(p));
                assert(all.take(p + 1).last() == all[p]);
            }
        }
        proof {
            assert(all.take(all.len() as int) =~= all);
        }
        store
    }

    /// How many datasets the store holds.
    pub fn dataset_count(&self) -> (n: usize)
        ensures
            n as nat == self@.dom().len(),
    {
        proof {
            use_type_invariant(&*self);
            lemma_store_map_count(self.entries@);
        }
        self.entries.len()
    }
}

} // verus!
