//! The field store: per-span accumulation and inheritance of structured
//! key/value fields.
//!
//! Each span owns one [`JsonStorage`]. At span creation the parent's store is
//! copied, so later mutations of parent and child are independent; within one
//! store a later write to a name overwrites the earlier value.

use vstd::prelude::*;

use crate::text::{str_eq, str_starts_with};
use crate::value::{FieldValue, SpecValue};

verus! {

/// The storage side of the pipeline, as a marker value: the host runtime's
/// lifecycle hooks route span creation, field recording and timing through
/// [`JsonStorage`], [`JsonStorage::for_new_span`] and
/// [`crate::timing::SpanTiming`], and attach the results to each span for the
/// formatting side to read.
#[derive(Clone, Debug)]
pub struct JsonStorageLayer;

/// One named field and its value.
#[derive(Debug)]
pub struct Field {
    pub name: String,
    pub value: FieldValue,
}

impl View for Field {
    type V = (Seq<char>, SpecValue);

    open spec fn view(&self) -> (Seq<char>, SpecValue) {
        (self.name@, self.value@)
    }
}

/// The entries a list of fields stands for, field by field.
pub open spec fn field_views(s: Seq<Field>) -> Seq<(Seq<char>, SpecValue)> {
    s.map_values(|f: Field| f@)
}

/// No two entries carry the same name.
pub open spec fn keys_unique(s: Seq<(Seq<char>, SpecValue)>) -> bool {
    forall|i: int, j: int| 0 <= i < j < s.len() ==> s[i].0 != s[j].0
}

/// Whether some entry carries the name `k`.
pub open spec fn has_key(s: Seq<(Seq<char>, SpecValue)>, k: Seq<char>) -> bool {
    exists|i: int| 0 <= i < s.len() && s[i].0 == k
}

/// The value of the first entry named `k`, if any.
pub open spec fn spec_lookup(s: Seq<(Seq<char>, SpecValue)>, k: Seq<char>) -> Option<SpecValue>
    decreases s.len(),
{
    if s.len() == 0 {
        None
    } else if s[0].0 == k {
        Some(s[0].1)
    } else {
        spec_lookup(s.drop_first(), k)
    }
}

/// `s` with its first entry named `k` taken out, if one exists.
pub open spec fn spec_remove_key(
    s: Seq<(Seq<char>, SpecValue)>,
    k: Seq<char>,
) -> Seq<(Seq<char>, SpecValue)>
    decreases s.len(),
{
    if s.len() == 0 {
        s
    } else if s[0].0 == k {
        s.drop_first()
    } else {
        seq![s[0]] + spec_remove_key(s.drop_first(), k)
    }
}

/// Last-write-wins update: the old entry named `k`, if any, is dropped and the
/// new one appended at the end.
pub open spec fn spec_upsert(
    s: Seq<(Seq<char>, SpecValue)>,
    k: Seq<char>,
    v: SpecValue,
) -> Seq<(Seq<char>, SpecValue)> {
    spec_remove_key(s, k).push((k, v))
}

/// The key under which a field of non-primitive kind is stored: a name with
/// the logging-compatibility prefix is dropped, a raw-identifier escape is
/// unwrapped to its bare form, any other name stands as it is.
pub open spec fn spec_debug_key(name: Seq<char>) -> Option<Seq<char>> {
    if "log."@.is_prefix_of(name) {
        None
    } else if "r#"@.is_prefix_of(name) {
        Some(name.skip(2))
    } else {
        Some(name)
    }
}

/// The effect of recording a debug-rendered field: the store unchanged for a
/// dropped name, otherwise an upsert of the rendered text under the
/// (possibly unwrapped) name.
pub open spec fn spec_record_debug(
    s: Seq<(Seq<char>, SpecValue)>,
    name: Seq<char>,
    rendered: Seq<char>,
) -> Seq<(Seq<char>, SpecValue)> {
    match spec_debug_key(name) {
        None => s,
        Some(k) => spec_upsert(s, k, SpecValue::Str(rendered)),
    }
}

/// The store after a sequence of fields is recorded in order, each as an
/// upsert.
pub open spec fn spec_apply(
    s: Seq<(Seq<char>, SpecValue)>,
    fields: Seq<(Seq<char>, SpecValue)>,
) -> Seq<(Seq<char>, SpecValue)>
    decreases fields.len(),
{
    if fields.len() == 0 {
        s
    } else {
        spec_upsert(spec_apply(s, fields.drop_last()), fields.last().0, fields.last().1)
    }
}

/// A span's accumulated fields, in write order: inherited fields first, then
/// creation-time fields, then later recorded fields, each name at most once.
#[derive(Debug)]
pub struct JsonStorage {
    values: Vec<Field>,
}

impl Clone for Field {
    fn clone(&self) -> (r: Self)
        ensures
            r@ == self@,
    {
        Field { name: self.name.clone(), value: self.value.clone() }
    }
}

impl Clone for JsonStorage {
    /// An owned, entry-for-entry copy sharing no storage with the original.
    fn clone(&self) -> (r: Self)
        ensures
            r@ == self@,
    {
        let n = self.values.len();
        let mut values: Vec<Field> = Vec::new();
        let mut i: usize = 0;
        while i < n
            invariant
                i <= n,
                n == self.values@.len(),
                values@.len() == i,
                forall|j: int| 0 <= j < i ==> values@[j]@ == self.values@[j]@,
            decreases n - i,
        {
            values.push(self.values[i].clone());
            i = i + 1;
        }
        let r = JsonStorage { values };
        proof {
            assert(r@ =~= self@);
        }
        r
    }
}

impl Default for JsonStorage {
    /// An empty field store.
    fn default() -> (r: Self)
        ensures
            r@ == Seq::<(Seq<char>, SpecValue)>::empty(),
            r.wf(),
    {
        let r = JsonStorage { values: Vec::new() };
        proof {
            assert(r@ =~= Seq::<(Seq<char>, SpecValue)>::empty());
        }
        r
    }
}

impl View for JsonStorage {
    type V = Seq<(Seq<char>, SpecValue)>;

    closed spec fn view(&self) -> Seq<(Seq<char>, SpecValue)> {
        self.values@.map_values(|f: Field| f@)
    }
}

impl JsonStorage {
    /// The store's one internal invariant: no duplicate names.
    pub open spec fn wf(&self) -> bool {
        keys_unique(self@)
    }

    /// The stored entries, in write order.
    pub fn values(&self) -> (r: &Vec<Field>)
        ensures
            field_views(r@) == self@,
    {
        &self.values
    }

    /// How many fields are stored.
    pub fn len(&self) -> (n: usize)
        ensures
            n == self@.len(),
    {
        self.values.len()
    }

    /// The field at one position, in write order.
    pub fn get(&self, i: usize) -> (f: &Field)
        requires
            i < self@.len(),
        ensures
            f@ == self@[i as int],
    {
        &self.values[i]
    }

    /// The value stored under `name`, if any.
    pub fn lookup(&self, name: &str) -> (r: Option<&FieldValue>)
        ensures
            match r {
                Some(v) => spec_lookup(self@, name@) == Some(v@),
                None => spec_lookup(self@, name@) is None,
            },
    {
        let n = self.values.len();
        let mut i: usize = 0;
        proof {
            assert(self@.skip(0) =~= self@);
        }
        while i < n
            invariant
                i <= n,
                n == self@.len(),
                spec_lookup(self@, name@) == spec_lookup(self@.skip(i as int), name@),
            decreases n - i,
        {
            proof {
                assert(self@.skip(i as int)[0] == self@[i as int]);
                assert(self@.skip(i as int).drop_first() =~= self@.skip(i + 1 as int));
            }
            if str_eq(self.values[i].name.as_str(), name) {
                return Some(&self.values[i].value);
            }
            i = i + 1;
        }
        proof {
            assert(self@.skip(n as int) =~= Seq::<(Seq<char>, SpecValue)>::empty());
        }
        None
    }

    /// The position of the first entry named `name`, if any.
    fn index_of(&self, name: &str) -> (r: Option<usize>)
        ensures
            match r {
                Some(i) => i < self@.len() && self@[i as int].0 == name@ && (forall|j: int|
                    0 <= j < i ==> self@[j].0 != name@),
                None => forall|j: int| 0 <= j < self@.len() ==> self@[j].0 != name@,
            },
    {
        let n = self.values.len();
        let mut i: usize = 0;
        while i < n
            invariant
                i <= n,
                n == self@.len(),
                forall|j: int| 0 <= j < i ==> self@[j].0 != name@,
            decreases n - i,
        {
            if str_eq(self.values[i].name.as_str(), name) {
                return Some(i);
            }
            i = i + 1;
        }
        None
    }

    /// Inserts `value` under `name`, overwriting any earlier value of that
    /// name; a new name goes to the end of the write order.
    pub fn upsert(&mut self, name: String, value: FieldValue)
        ensures
            final(self)@ == spec_upsert(old(self)@, name@, value@),
            old(self).wf() ==> final(self).wf(),
    {
        let ghost s0 = self@;
        match self.index_of(name.as_str()) {
            Some(i) => {
                proof {
                    lemma_remove_key_at(s0, name@, i as int);
                    if keys_unique(s0) {
                        lemma_remove_at_unique(s0, name@, i as int);
                    }
                }
                let ghost vals0 = self.values@;
                self.values.remove(i);
                proof {
                    assert forall|j: int| 0 <= j < self@.len() implies self@[j] == s0.remove(
                        i as int,
                    )[j] by {
                        if j < i {
                            assert(self.values@[j] == vals0[j]);
                        } else {
                            assert(self.values@[j] == vals0[j + 1]);
                        }
                    }
                    assert(self@ =~= s0.remove(i as int));
                }
                let ghost mid = self@;
                self.values.push(Field { name, value });
                proof {
                    assert(self@ =~= mid.push((name@, value@)));
                    assert(self@ =~= spec_upsert(s0, name@, value@));
                    if keys_unique(s0) {
                        lemma_push_fresh_unique(s0.remove(i as int), name@, value@);
                    }
                }
            },
            None => {
                proof {
                    lemma_remove_key_absent(s0, name@);
                }
                self.values.push(Field { name, value });
                proof {
                    assert(self@ =~= spec_upsert(s0, name@, value@));
                    if keys_unique(s0) {
                        assert(!has_key(s0, name@));
                        lemma_push_fresh_unique(s0, name@, value@);
                    }
                }
            },
        }
    }

    /// Records a signed integer field, as its direct JSON equivalent.
    pub fn record_i64(&mut self, name: &str, value: i64)
        ensures
            final(self)@ == spec_upsert(old(self)@, name@, SpecValue::I64(value)),
            old(self).wf() ==> final(self).wf(),
    {
        self.upsert(name.to_owned(), FieldValue::I64(value));
    }

    /// Records an unsigned integer field, as its direct JSON equivalent.
    pub fn record_u64(&mut self, name: &str, value: u64)
        ensures
            final(self)@ == spec_upsert(old(self)@, name@, SpecValue::U64(value)),
            old(self).wf() ==> final(self).wf(),
    {
        self.upsert(name.to_owned(), FieldValue::U64(value));
    }

    /// Records a boolean field, as its direct JSON equivalent.
    pub fn record_bool(&mut self, name: &str, value: bool)
        ensures
            final(self)@ == spec_upsert(old(self)@, name@, SpecValue::Bool(value)),
            old(self).wf() ==> final(self).wf(),
    {
        self.upsert(name.to_owned(), FieldValue::Bool(value));
    }

    /// Records a string field, as a JSON string.
    pub fn record_str(&mut self, name: &str, value: &str)
        ensures
            final(self)@ == spec_upsert(old(self)@, name@, SpecValue::Str(value@)),
            old(self).wf() ==> final(self).wf(),
    {
        self.upsert(name.to_owned(), FieldValue::Str(value.to_owned()));
    }

    /// Records a field of any other kind through its human-readable debug
    /// rendering, stored as a JSON string: a name with the
    /// logging-compatibility prefix is dropped entirely (it duplicates
    /// metadata handled elsewhere), and a raw-identifier escape is stripped
    /// from the name before it is used as the key.
    pub fn record_debug(&mut self, name: &str, rendered: &str)
        ensures
            final(self)@ == spec_record_debug(old(self)@, name@, rendered@),
            old(self).wf() ==> final(self).wf(),
    {
        proof {
            reveal_strlit("log.");
            reveal_strlit("r#");
        }
        if str_starts_with(name, "log.") {
            return ;
        }
        if str_starts_with(name, "r#") {
            let bare = name.substring_char(2, name.unicode_len());
            self.upsert(bare.to_owned(), FieldValue::Str(rendered.to_owned()));
        } else {
            self.upsert(name.to_owned(), FieldValue::Str(rendered.to_owned()));
        }
    }

    /// Records a pre-rendered JSON value, emitted verbatim; the same name
    /// rules apply as for any other non-primitive kind.
    pub fn record_json(&mut self, name: &str, rendered_json: String)
        ensures
            final(self)@ == spec_upsert(old(self)@, name@, SpecValue::Json(rendered_json@)),
            old(self).wf() ==> final(self).wf(),
    {
        self.upsert(name.to_owned(), FieldValue::Json(rendered_json));
    }

    /// On span close: stores the span's elapsed time, in milliseconds, under
    /// the reserved key.
    pub fn record_elapsed(&mut self, elapsed_ms: u64)
        ensures
            final(self)@ == spec_upsert(
                old(self)@,
                "elapsed_milliseconds"@,
                SpecValue::U64(elapsed_ms),
            ),
            old(self).wf() ==> final(self).wf(),
    {
        let name: &str = "elapsed_milliseconds";
        self.upsert(name.to_owned(), FieldValue::U64(elapsed_ms));
    }

    /// The starting field set for a new span: a copy of the parent's current
    /// fields when a parent exists, empty otherwise. The copy shares no
    /// storage with the parent, so later mutations of either are independent.
    /// Creation-time fields are recorded on top of this result.
    pub fn for_new_span(parent: Option<&JsonStorage>) -> (r: JsonStorage)
        ensures
            match parent {
                Some(p) => r@ == p@,
                None => r@ == Seq::<(Seq<char>, SpecValue)>::empty(),
            },
            (match parent {
                Some(p) => p.wf(),
                None => true,
            }) ==> r.wf(),
    {
        match parent {
            Some(p) => p.clone(),
            None => JsonStorage::default(),
        }
    }
}

/// When position `i` holds the first entry named `k`, removing the name is
/// removing that position.
proof fn lemma_remove_key_at(s: Seq<(Seq<char>, SpecValue)>, k: Seq<char>, i: int)
    requires
        0 <= i < s.len(),
        s[i].0 == k,
        forall|j: int| 0 <= j < i ==> s[j].0 != k,
    ensures
        spec_remove_key(s, k) =~= s.remove(i),
    decreases i,
{
    if i == 0 {
        assert(s.drop_first() =~= s.remove(0));
    } else {
        lemma_remove_key_at(s.drop_first(), k, i - 1);
        assert(seq![s[0]] + s.drop_first().remove(i - 1) =~= s.remove(i));
    }
}

/// Removing an absent name changes nothing.
proof fn lemma_remove_key_absent(s: Seq<(Seq<char>, SpecValue)>, k: Seq<char>)
    requires
        forall|j: int| 0 <= j < s.len() ==> s[j].0 != k,
    ensures
        spec_remove_key(s, k) =~= s,
    decreases s.len(),
{
    if s.len() > 0 {
        lemma_remove_key_absent(s.drop_first(), k);
        assert(seq![s[0]] + s.drop_first() =~= s);
    }
}

/// With unique names, removing the one entry named `k` leaves no entry named
/// `k`, and the names stay unique.
proof fn lemma_remove_at_unique(s: Seq<(Seq<char>, SpecValue)>, k: Seq<char>, i: int)
    requires
        keys_unique(s),
        0 <= i < s.len(),
        s[i].0 == k,
    ensures
        keys_unique(s.remove(i)),
        !has_key(s.remove(i), k),
{
    let t = s.remove(i);
    assert forall|j: int| 0 <= j < t.len() implies t[j].0 != k by {
        if j < i {
            assert(t[j] == s[j]);
        } else {
            assert(t[j] == s[j + 1]);
        }
    }
    assert forall|a: int, b: int| 0 <= a < b < t.len() implies t[a].0 != t[b].0 by {
        let sa = if a < i {
            a
        } else {
            a + 1
        };
        let sb = if b < i {
            b
        } else {
            b + 1
        };
        assert(t[a] == s[sa]);
        assert(t[b] == s[sb]);
    }
}

/// Appending a name that is not present keeps the names unique.
proof fn lemma_push_fresh_unique(s: Seq<(Seq<char>, SpecValue)>, k: Seq<char>, v: SpecValue)
    requires
        keys_unique(s),
        !has_key(s, k),
    ensures
        keys_unique(s.push((k, v))),
{
    let t = s.push((k, v));
    assert forall|a: int, b: int| 0 <= a < b < t.len() implies t[a].0 != t[b].0 by {
        if b < s.len() {
            assert(t[a] == s[a]);
            assert(t[b] == s[b]);
        } else {
            assert(t[a] == s[a]);
            assert(t[b] == (k, v));
        }
    }
}

/// Appending an entry of another name leaves a lookup unchanged.
proof fn lemma_lookup_push_other(
    s: Seq<(Seq<char>, SpecValue)>,
    x: (Seq<char>, SpecValue),
    k: Seq<char>,
)
    requires
        x.0 != k,
    ensures
        spec_lookup(s.push(x), k) == spec_lookup(s, k),
    decreases s.len(),
{
    let t = s.push(x);
    if s.len() == 0 {
        assert(t[0] == x);
        assert(t[0].0 != k);
        assert(spec_lookup(t, k) == spec_lookup(t.drop_first(), k));
        assert(t.drop_first() =~= Seq::<(Seq<char>, SpecValue)>::empty());
        assert(spec_lookup(t.drop_first(), k) == None::<SpecValue>);
        assert(spec_lookup(s, k) == None::<SpecValue>);
    } else {
        assert(t[0] == s[0]);
        if s[0].0 == k {
            assert(spec_lookup(t, k) == Some(s[0].1));
            assert(spec_lookup(s, k) == Some(s[0].1));
        } else {
            lemma_lookup_push_other(s.drop_first(), x, k);
            assert(t.drop_first() =~= s.drop_first().push(x));
            assert(spec_lookup(t, k) == spec_lookup(t.drop_first(), k));
            assert(spec_lookup(s, k) == spec_lookup(s.drop_first(), k));
        }
    }
}

/// Appending an entry named `k` to a store with no entry named `k` makes a
/// lookup of `k` return it.
proof fn lemma_lookup_push_fresh(
    s: Seq<(Seq<char>, SpecValue)>,
    x: (Seq<char>, SpecValue),
)
    requires
        !has_key(s, x.0),
    ensures
        spec_lookup(s.push(x), x.0) == Some(x.1),
    decreases s.len(),
{
    if s.len() == 0 {
        assert(s.push(x)[0] == x);
    } else {
        assert(s[0].0 != x.0);
        assert(!has_key(s.drop_first(), x.0)) by {
            assert forall|i: int| 0 <= i < s.drop_first().len() implies s.drop_first()[i].0 != x.0
                by {
                assert(s.drop_first()[i] == s[i + 1]);
            }
        }
        lemma_lookup_push_fresh(s.drop_first(), x);
        assert(s.push(x).drop_first() =~= s.drop_first().push(x));
    }
}

/// Taking out the entries named `k` leaves a lookup of another name unchanged.
proof fn lemma_lookup_remove_other(s: Seq<(Seq<char>, SpecValue)>, k: Seq<char>, k2: Seq<char>)
    requires
        k2 != k,
    ensures
        spec_lookup(spec_remove_key(s, k), k2) == spec_lookup(s, k2),
    decreases s.len(),
{
    if s.len() > 0 {
        if s[0].0 == k {
        } else {
            lemma_lookup_remove_other(s.drop_first(), k, k2);
            let t = seq![s[0]] + spec_remove_key(s.drop_first(), k);
            assert(t[0] == s[0]);
            assert(t.drop_first() =~= spec_remove_key(s.drop_first(), k));
        }
    }
}

/// With unique names, taking out the one entry named `k` leaves no entry
/// named `k`.
proof fn lemma_remove_key_none_left(s: Seq<(Seq<char>, SpecValue)>, k: Seq<char>)
    requires
        keys_unique(s),
    ensures
        !has_key(spec_remove_key(s, k), k),
    decreases s.len(),
{
    if s.len() > 0 {
        assert(keys_unique(s.drop_first())) by {
            assert forall|a: int, b: int|
                0 <= a < b < s.drop_first().len() implies s.drop_first()[a].0
                != s.drop_first()[b].0 by {
                assert(s.drop_first()[a] == s[a + 1]);
                assert(s.drop_first()[b] == s[b + 1]);
            }
        }
        if s[0].0 == k {
            assert forall|i: int|
                0 <= i < s.drop_first().len() implies s.drop_first()[i].0 != k by {
                assert(s.drop_first()[i] == s[i + 1]);
            }
        } else {
            lemma_remove_key_none_left(s.drop_first(), k);
            let t = seq![s[0]] + spec_remove_key(s.drop_first(), k);
            assert forall|i: int| 0 <= i < t.len() implies t[i].0 != k by {
                if i > 0 {
                    assert(t[i] == spec_remove_key(s.drop_first(), k)[i - 1]);
                }
            }
        }
    }
}

/// A name that a lookup finds stands in the entries, with the found value.
pub proof fn lemma_lookup_is_entry(s: Seq<(Seq<char>, SpecValue)>, k: Seq<char>)
    requires
        spec_lookup(s, k) is Some,
    ensures
        exists|i: int|
            0 <= i < s.len() && s[i] == (k, spec_lookup(s, k)->Some_0),
    decreases s.len(),
{
    if s[0].0 == k {
        assert(s[0] == (k, spec_lookup(s, k)->Some_0));
    } else {
        lemma_lookup_is_entry(s.drop_first(), k);
        let i = choose|i: int|
            0 <= i < s.drop_first().len() && s.drop_first()[i] == (
            k,
            spec_lookup(s.drop_first(), k)->Some_0,
            );
        assert(s[i + 1] == s.drop_first()[i]);
    }
}

/// Law: a recorded field is found afterwards with the recorded value.
pub proof fn lemma_lookup_upsert_same(s: Seq<(Seq<char>, SpecValue)>, k: Seq<char>, v: SpecValue)
    requires
        keys_unique(s),
    ensures
        spec_lookup(spec_upsert(s, k, v), k) == Some(v),
{
    lemma_remove_key_none_left(s, k);
    lemma_lookup_push_fresh(spec_remove_key(s, k), (k, v));
}

/// Law: recording a field changes only the entry of that name; every other
/// name keeps its value. Since a child store is an owned copy made at span
/// creation (`JsonStorage::for_new_span`) that shares no storage with the
/// parent, a later record on the parent never changes the child's store, and
/// a record on the child never changes the parent's.
pub proof fn lemma_record_touches_only_its_key(
    s: Seq<(Seq<char>, SpecValue)>,
    k: Seq<char>,
    v: SpecValue,
    k2: Seq<char>,
)
    requires
        k2 != k,
    ensures
        spec_lookup(spec_upsert(s, k, v), k2) == spec_lookup(s, k2),
{
    lemma_lookup_remove_other(s, k, k2);
    lemma_lookup_push_other(spec_remove_key(s, k), (k, v), k2);
}

/// Law: immediately after a span's creation, every field present in the
/// parent's store at that moment is present with the same value in the new
/// span's store, unless a creation-time field of the same name overrode it.
/// `p` is the parent's entries (the child starts from a copy of them) and
/// `cf` the creation-time fields recorded on top, in order.
pub proof fn lemma_child_inherits_parent_fields(
    p: Seq<(Seq<char>, SpecValue)>,
    cf: Seq<(Seq<char>, SpecValue)>,
    k: Seq<char>,
)
    requires
        forall|i: int| 0 <= i < cf.len() ==> cf[i].0 != k,
    ensures
        spec_lookup(spec_apply(p, cf), k) == spec_lookup(p, k),
    decreases cf.len(),
{
    if cf.len() > 0 {
        assert(forall|i: int| 0 <= i < cf.drop_last().len() ==> cf.drop_last()[i].0 != k);
        lemma_child_inherits_parent_fields(p, cf.drop_last(), k);
        lemma_record_touches_only_its_key(spec_apply(p, cf.drop_last()), cf.last().0, cf.last().1, k);
    }
}

} // verus!
