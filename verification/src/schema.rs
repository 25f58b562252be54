//! Relation schemas: which subject and object labels each relation class
//! admits.
//!
//! A schema is built once per extraction request from caller-declared
//! entries and is read-only during decoding.  Entries are looked up by
//! relation-class name, first match first; declaring the same class twice
//! overwrites the earlier entry rather than merging with it.

use vstd::prelude::*;

verus! {

/// Allowed subject and object labels for one relation class.
pub struct RelationSpec {
    pub subjects: Vec<String>,
    pub objects: Vec<String>,
}

impl RelationSpec {
    /// The label is among the allowed subject labels.
    pub open spec fn spec_allows_subject(&self, label: Seq<char>) -> bool {
        self.subjects.deep_view().contains(label)
    }

    /// The label is among the allowed object labels.
    pub open spec fn spec_allows_object(&self, label: Seq<char>) -> bool {
        self.objects.deep_view().contains(label)
    }

    /// Whether `label` is an allowed subject label.
    pub fn allows_subject(&self, label: &String) -> (r: bool)
        ensures
            r == self.spec_allows_subject(label@),
    {
        contains_label(&self.subjects, label)
    }

    /// Whether `label` is an allowed object label.
    pub fn allows_object(&self, label: &String) -> (r: bool)
        ensures
            r == self.spec_allows_object(label@),
    {
        contains_label(&self.objects, label)
    }

    /// Whether any of `labels` is an allowed object label.
    pub fn allows_one_of_objects(&self, labels: &Vec<String>) -> (r: bool)
        ensures
            r == exists|j: int|
                0 <= j < labels.deep_view().len() && self.spec_allows_object(
                    #[trigger] labels.deep_view()[j],
                ),
    {
        let mut j: usize = 0;
        while j < labels.len()
            invariant
                j <= labels@.len(),
                forall|i: int| 0 <= i < j ==> !self.spec_allows_object(
                    #[trigger] labels.deep_view()[i],
                ),
            decreases labels@.len() - j,
        {
            proof {
                assert(labels.deep_view()[j as int] == labels@[j as int].deep_view());
            }
            if self.allows_object(&labels[j]) {
                return true;
            }
            j = j + 1;
        }
        false
    }
}

/// Holds when `labels` contains `label`, by character content.
fn contains_label(labels: &Vec<String>, label: &String) -> (r: bool)
    ensures
        r == labels.deep_view().contains(label@),
{
    let mut i: usize = 0;
    while i < labels.len()
        invariant
            i <= labels@.len(),
            forall|j: int| 0 <= j < i ==> labels.deep_view()[j] != label@,
        decreases labels@.len() - i,
    {
        proof {
            assert(labels.deep_view()[i as int] == labels@[i as int].deep_view());
        }
        if labels[i].eq(label) {
            assert(labels.deep_view()[i as int] == label@);
            return true;
        }
        i = i + 1;
    }
    false
}

/// First-match lookup of a relation class among schema entries.
pub open spec fn spec_lookup(entries: Seq<(String, RelationSpec)>, name: Seq<char>) -> Option<
    RelationSpec,
>
    decreases entries.len(),
{
    if entries.len() == 0 {
        None
    } else if entries[0].0@ == name {
        Some(entries[0].1)
    } else {
        spec_lookup(entries.drop_first(), name)
    }
}

/// Positional characterization of [`spec_lookup`]: if every entry before
/// `idx` misses and `idx` (when in range) hits, the lookup result is the
/// entry at `idx`, or nothing when `idx` is past the end.
proof fn lemma_lookup_at(entries: Seq<(String, RelationSpec)>, idx: int, name: Seq<char>)
    requires
        0 <= idx <= entries.len(),
        forall|j: int| 0 <= j < idx ==> (#[trigger] entries[j]).0@ != name,
        idx < entries.len() ==> entries[idx].0@ == name,
    ensures
        spec_lookup(entries, name) == if idx < entries.len() {
            Some(entries[idx].1)
        } else {
            Option::<RelationSpec>::None
        },
    decreases entries.len(),
{
    if entries.len() == 0 {
    } else if idx == 0 {
    } else {
        let tail = entries.drop_first();
        assert forall|j: int| 0 <= j < idx - 1 implies (#[trigger] tail[j]).0@ != name by {
            assert(tail[j] == entries[j + 1]);
        }
        lemma_lookup_at(tail, idx - 1, name);
    }
}

/// A lookup for `n` ignores entries that only changed under a different
/// name.
proof fn lemma_lookup_except(
    a: Seq<(String, RelationSpec)>,
    b: Seq<(String, RelationSpec)>,
    name: Seq<char>,
    n: Seq<char>,
)
    requires
        a.len() == b.len(),
        forall|j: int| 0 <= j < a.len() ==> #[trigger] a[j] == b[j] || (a[j].0@ == name
            && b[j].0@ == name),
        n != name,
    ensures
        spec_lookup(a, n) == spec_lookup(b, n),
    decreases a.len(),
{
    if a.len() == 0 {
    } else {
        assert(a[0] == b[0] || (a[0].0@ == name && b[0].0@ == name));
        let at = a.drop_first();
        let bt = b.drop_first();
        assert forall|j: int| 0 <= j < at.len() implies #[trigger] at[j] == bt[j] || (at[j].0@
            == name && bt[j].0@ == name) by {
            assert(at[j] == a[j + 1] && bt[j] == b[j + 1]);
        }
        lemma_lookup_except(at, bt, name, n);
    }
}

/// Appending an entry under a different name leaves a lookup unchanged.
proof fn lemma_lookup_push(
    entries: Seq<(String, RelationSpec)>,
    e: (String, RelationSpec),
    n: Seq<char>,
)
    requires
        e.0@ != n,
    ensures
        spec_lookup(entries.push(e), n) == spec_lookup(entries, n),
    decreases entries.len(),
{
    if entries.len() == 0 {
        assert(entries.push(e)[0] == e);
        assert(entries.push(e).drop_first() =~= Seq::<(String, RelationSpec)>::empty());
        assert(spec_lookup(Seq::<(String, RelationSpec)>::empty(), n) is None);
    } else {
        assert(entries.push(e)[0] == entries[0]);
        assert(entries.push(e).drop_first() =~= entries.drop_first().push(e));
        lemma_lookup_push(entries.drop_first(), e, n);
    }
}

/// A declarative constraint set mapping each relation class to its allowed
/// subject and object labels.
pub struct RelationSchema {
    pub entries: Vec<(String, RelationSpec)>,
}

impl RelationSchema {
    /// The empty schema: every relation class is unknown.
    pub fn new() -> (r: RelationSchema)
        ensures
            r.entries@.len() == 0,
    {
        RelationSchema { entries: Vec::new() }
    }

    /// What the schema answers for a relation-class name.
    pub open spec fn spec_get(&self, name: Seq<char>) -> Option<RelationSpec> {
        spec_lookup(self.entries@, name)
    }

    /// Returns the entry for the relation-class `name`, if declared.
    pub fn get<'a>(&'a self, name: &String) -> (r: Option<&'a RelationSpec>)
        ensures
            match r {
                Some(sp) => self.spec_get(name@) == Some(*sp),
                None => self.spec_get(name@) is None,
            },
    {
        let mut i: usize = 0;
        proof {
            assert(self.entries@.skip(0) =~= self.entries@);
        }
        while i < self.entries.len()
            invariant
                i <= self.entries@.len(),
                spec_lookup(self.entries@, name@) == spec_lookup(
                    self.entries@.skip(i as int),
                    name@,
                ),
            decreases self.entries@.len() - i,
        {
            proof {
                assert(self.entries@.skip(i as int).drop_first() =~= self.entries@.skip(i + 1));
            }
            if self.entries[i].0.eq(name) {
                return Some(&self.entries[i].1);
            }
            i = i + 1;
        }
        None
    }

    /// Declares (or overwrites) the allowed subject and object labels of
    /// one relation class.  The class named `relation` now answers exactly
    /// these labels; every other class is untouched.
    #[verifier::loop_isolation(false)]
    pub fn push_with_allowed_labels(
        &mut self,
        relation: &str,
        subjects: Vec<String>,
        objects: Vec<String>,
    )
        ensures
            ({
                let entry = (RelationSpec { subjects, objects });
                &&& spec_lookup(final(self).entries@, relation@) matches Some(sp)
                    && sp.subjects@ == entry.subjects@ && sp.objects@ == entry.objects@
                &&& forall|n: Seq<char>| n != relation@ ==> spec_lookup(
                    final(self).entries@,
                    n,
                ) == spec_lookup(old(self).entries@, n)
            }),
    {
        let ghost gsub = subjects@;
        let ghost gobj = objects@;
        let name = String::from_str(relation);
        let entry = RelationSpec { subjects, objects };
        let ghost gentry0 = entry;
        let ghost oldv = self.entries@;
        let mut i: usize = 0;
        while i < self.entries.len()
            invariant
                i <= self.entries@.len(),
                self.entries@ == oldv,
                name@ == relation@,
                forall|j: int| 0 <= j < i ==> (#[trigger] oldv[j]).0@ != relation@,
            decreases self.entries@.len() - i,
        {
            if self.entries[i].0.eq(&name) {
                let ghost gname = name;
                let ghost gentry = entry;
                self.entries.remove(i);
                let ghost removedv = self.entries@;
                self.entries.insert(i, (name, entry));
                proof {
                    let newv = self.entries@;
                    oldv.remove_ensures(i as int);
                    removedv.insert_ensures(i as int, (gname, gentry));
                    assert(newv[i as int] == (gname, gentry));
                    assert(newv =~= oldv.update(i as int, (gname, gentry)));
                    assert(newv[i as int].0@ == relation@);
                    assert forall|j: int| 0 <= j < newv.len() implies #[trigger] oldv[j]
                        == newv[j] || (oldv[j].0@ == relation@ && newv[j].0@ == relation@) by {
                        if j != i {
                            assert(newv[j] == oldv[j]);
                        }
                    }
                    assert forall|n: Seq<char>| n != relation@ implies spec_lookup(newv, n)
                        == spec_lookup(oldv, n) by {
                        lemma_lookup_except(newv, oldv, relation@, n);
                    }
                    assert forall|j: int| 0 <= j < i implies (#[trigger] newv[j]).0@ != relation@
                        by {
                        assert(newv[j] == oldv[j]);
                    }
                    lemma_lookup_at(newv, i as int, relation@);
                    assert(spec_lookup(newv, relation@) == Some(gentry));
                    assert(gentry == gentry0);
                    assert(gentry.subjects@ == gsub && gentry.objects@ == gobj);
                }
                return ;
            }
            i = i + 1;
        }
        self.entries.push((name, entry));
        proof {
            let newv = self.entries@;
            assert(newv == oldv.push(newv[oldv.len() as int]));
            assert(newv[oldv.len() as int].0@ == relation@);
            lemma_lookup_at(newv, oldv.len() as int, relation@);
            assert forall|n: Seq<char>| n != relation@ implies spec_lookup(newv, n) == spec_lookup(
                oldv,
                n,
            ) by {
                lemma_lookup_push(oldv, newv[oldv.len() as int], n);
            }
        }
    }
}

} // verus!
