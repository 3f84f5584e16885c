//! Settings store: every `contributes.settings` declaration collected
//! into one typed key/value table, user overrides checked against the
//! declared kinds, and a typed read and mutate API.
//!
//! A number setting holds the bit pattern of its `f64` value
//! (`f64::to_bits`): the store only compares kinds, never numbers.

use vstd::prelude::*;

use crate::commands::keymap::{lemma_lookup_absent, lemma_lookup_present};
use crate::commands::registry::str_eq;
use crate::editor::editor::{keys_distinct, lemma_lookup_push, lemma_lookup_update, lookup};
use crate::paths::{join_path, join_segments, owned, seg_chars};
use crate::plugin::{is_segment, segment_valid};

verus! {

/// A setting's current value.
pub enum SettingValue {
    Boolean(bool),
    String(String),
    /// The bits of an `f64`.
    Number(u64),
    EnumString(String),
}

/// A setting value with its text as character sequences.
pub enum SettingView {
    Boolean(bool),
    Text(Seq<char>),
    Number(u64),
    Enum(Seq<char>),
}

impl View for SettingValue {
    type V = SettingView;

    open spec fn view(&self) -> SettingView {
        match self {
            SettingValue::Boolean(b) => SettingView::Boolean(*b),
            SettingValue::String(s) => SettingView::Text(s@),
            SettingValue::Number(n) => SettingView::Number(*n),
            SettingValue::EnumString(s) => SettingView::Enum(s@),
        }
    }
}

/// A setting's declaration: its kind and default, and for an enum the
/// admissible values.
pub enum SettingSpec {
    Boolean { default: bool },
    String { default: String },
    /// `default` is the bits of an `f64`.
    Number { default: u64 },
    Enum { default: String, values: Vec<String> },
}

/// A raw override value as an overrides file holds it.
pub enum OverrideValue {
    Null,
    Bool(bool),
    /// The bits of the number as an `f64`.
    Number(u64),
    String(String),
    Array,
    Object,
}

/// An override the store refuses.
pub enum SettingsOverrideError {
    /// The override's JSON kind doesn't match the setting's kind.
    TypeMismatch { key: String, expected: &'static str, got: &'static str },
    /// An enum override names a value outside the declared list.
    EnumOutOfRange { key: String, got: String, values: Vec<String> },
}

/// The value a declaration installs.
pub open spec fn default_view(s: SettingSpec) -> SettingView {
    match s {
        SettingSpec::Boolean { default } => SettingView::Boolean(default),
        SettingSpec::String { default } => SettingView::Text(default@),
        SettingSpec::Number { default } => SettingView::Number(default),
        SettingSpec::Enum { default, values: _ } => SettingView::Enum(default@),
    }
}

/// The texts of a list of strings.
pub open spec fn texts(v: Seq<String>) -> Seq<Seq<char>> {
    v.map_values(|s: String| s@)
}

/// Two values are of the same kind.
pub open spec fn same_kind(a: SettingView, b: SettingView) -> bool {
    match (a, b) {
        (SettingView::Boolean(_), SettingView::Boolean(_)) => true,
        (SettingView::Text(_), SettingView::Text(_)) => true,
        (SettingView::Number(_), SettingView::Number(_)) => true,
        (SettingView::Enum(_), SettingView::Enum(_)) => true,
        _ => false,
    }
}

/// An enum value is admissible: it is in the declared list, when there
/// is one.
pub open spec fn admissible(allowed: Option<Seq<Seq<char>>>, v: SettingView) -> bool {
    match (allowed, v) {
        (Some(list), SettingView::Enum(s)) => list.contains(s),
        _ => true,
    }
}

/// The map an association list with distinct keys stands for.
pub open spec fn table_map<V>(s: Seq<(Seq<char>, V)>) -> Map<Seq<char>, V> {
    Map::new(|k: Seq<char>| lookup(s, k) is Some, |k: Seq<char>| lookup(s, k).unwrap())
}

/// What a map holds at `k`, if anything.
pub open spec fn map_get<V>(m: Map<Seq<char>, V>, k: Seq<char>) -> Option<V> {
    if m.contains_key(k) {
        Some(m[k])
    } else {
        None
    }
}

/// The tables after registering the declarations `ss` in order, and how
/// many were new: the first declaration of a key wins; an enum
/// declaration also records its admissible values.
pub open spec fn register_settings(
    vals: Map<Seq<char>, SettingView>,
    enums: Map<Seq<char>, Seq<Seq<char>>>,
    ss: Seq<(String, SettingSpec)>,
) -> (Map<Seq<char>, SettingView>, Map<Seq<char>, Seq<Seq<char>>>, nat)
    decreases ss.len(),
{
    if ss.len() == 0 {
        (vals, enums, 0)
    } else {
        let (v, e, n) = register_settings(vals, enums, ss.drop_last());
        let k = ss.last().0@;
        let sp = ss.last().1;
        if v.contains_key(k) {
            (v, e, n)
        } else {
            (
                v.insert(k, default_view(sp)),
                match sp {
                    SettingSpec::Enum { default: _, values } => e.insert(k, texts(values@)),
                    _ => e,
                },
                n + 1,
            )
        }
    }
}

/// The value an override coerces to for a setting whose current value
/// is `existing`: the override's JSON kind must match the setting's,
/// and an enum value must be admissible.
pub open spec fn coerce_ok(raw: OverrideValue, existing: SettingView, allowed: Option<Seq<Seq<char>>>) -> Option<SettingView> {
    match (existing, raw) {
        (SettingView::Boolean(_), OverrideValue::Bool(b)) => Some(SettingView::Boolean(b)),
        (SettingView::Text(_), OverrideValue::String(s)) => Some(SettingView::Text(s@)),
        (SettingView::Number(_), OverrideValue::Number(n)) => Some(SettingView::Number(n)),
        (SettingView::Enum(_), OverrideValue::String(s)) => if admissible(
            allowed,
            SettingView::Enum(s@),
        ) {
            Some(SettingView::Enum(s@))
        } else {
            None
        },
        _ => None,
    }
}

/// The name of an override's JSON kind.
pub open spec fn json_kind(v: OverrideValue) -> Seq<char> {
    match v {
        OverrideValue::Null => "null"@,
        OverrideValue::Bool(_) => "boolean"@,
        OverrideValue::Number(_) => "number"@,
        OverrideValue::String(_) => "string"@,
        OverrideValue::Array => "array"@,
        OverrideValue::Object => "object"@,
    }
}

/// The name of a setting's kind, as a type mismatch reports it.
pub open spec fn kind_name(v: SettingView) -> Seq<char> {
    match v {
        SettingView::Boolean(_) => "boolean"@,
        SettingView::Text(_) => "string"@,
        SettingView::Number(_) => "number"@,
        SettingView::Enum(_) => "enum (string)"@,
    }
}

/// `e` is the error a refused override of `key` reports: an enum value
/// outside the list, or else a kind mismatch.
pub open spec fn coerce_error(
    key: Seq<char>,
    raw: OverrideValue,
    existing: SettingView,
    allowed: Option<Seq<Seq<char>>>,
    e: SettingsOverrideError,
) -> bool {
    match (existing, raw) {
        (SettingView::Enum(_), OverrideValue::String(s)) => e matches SettingsOverrideError::EnumOutOfRange {
            key: k,
            got,
            values,
        } && k@ == key && got@ == s@ && Some(texts(values@)) == allowed,
        _ => e matches SettingsOverrideError::TypeMismatch { key: k, expected, got } && k@ == key
            && expected@ == kind_name(existing) && got@ == json_kind(raw),
    }
}

/// The values after applying the overrides `os` in order, and how many
/// applied: keys no declaration made are skipped; `None` when one of
/// them is refused.
pub open spec fn override_fold(
    vals: Map<Seq<char>, SettingView>,
    enums: Map<Seq<char>, Seq<Seq<char>>>,
    os: Seq<(String, OverrideValue)>,
) -> Option<(Map<Seq<char>, SettingView>, nat)>
    decreases os.len(),
{
    if os.len() == 0 {
        Some((vals, 0))
    } else {
        match override_fold(vals, enums, os.drop_last()) {
            None => None,
            Some((v, n)) => {
                let k = os.last().0@;
                if !v.contains_key(k) {
                    Some((v, n))
                } else {
                    match coerce_ok(os.last().1, v[k], map_get(enums, k)) {
                        Some(nv) => Some((v.insert(k, nv), n + 1)),
                        None => None,
                    }
                }
            },
        }
    }
}

/// Applying overrides neither adds nor removes a key, and leaves every
/// setting of the kind its declaration gave it.
pub proof fn lemma_overrides_keep_kinds(
    vals: Map<Seq<char>, SettingView>,
    enums: Map<Seq<char>, Seq<Seq<char>>>,
    os: Seq<(String, OverrideValue)>,
)
    ensures
        override_fold(vals, enums, os) matches Some((v, _)) ==> v.dom() == vals.dom() && forall|k: Seq<char>|
            #[trigger] vals.contains_key(k) ==> same_kind(vals[k], v[k]),
    decreases os.len(),
{
    if os.len() > 0 {
        lemma_overrides_keep_kinds(vals, enums, os.drop_last());
        match override_fold(vals, enums, os.drop_last()) {
            Some((v, n)) => {
                let k = os.last().0@;
                if v.contains_key(k) {
                    match coerce_ok(os.last().1, v[k], map_get(enums, k)) {
                        Some(nv) => {
                            assert(v.insert(k, nv).dom() =~= v.dom());
                            assert(same_kind(v[k], nv));
                        },
                        None => {},
                    }
                }
            },
            None => {},
        }
    }
}

/// The view of a value table.
pub open spec fn values_view(s: Seq<(String, SettingValue)>) -> Seq<(Seq<char>, SettingView)> {
    s.map_values(|e: (String, SettingValue)| (e.0@, e.1@))
}

/// The view of an enum-list table.
pub open spec fn enums_view(s: Seq<(String, Vec<String>)>) -> Seq<(Seq<char>, Seq<Seq<char>>)> {
    s.map_values(|e: (String, Vec<String>)| (e.0@, texts(e.1@)))
}

/// A copy of a list of strings.
fn copy_strings(v: &Vec<String>) -> (r: Vec<String>)
    ensures
        texts(r@) == texts(v@),
{
    let mut r: Vec<String> = Vec::new();
    let mut i: usize = 0;
    while i < v.len()
        invariant
            i <= v@.len(),
            r@.len() == i,
            forall|j: int| 0 <= j < i ==> r@[j]@ == v@[j]@,
        decreases v@.len() - i,
    {
        r.push(owned(v[i].as_str()));
        i = i + 1;
    }
    proof {
        assert(texts(r@) =~= texts(v@));
    }
    r
}

/// Whether `s` is one of the texts of `list`.
fn contains_text(list: &Vec<String>, s: &str) -> (r: bool)
    ensures
        r == texts(list@).contains(s@),
{
    let mut i: usize = 0;
    while i < list.len()
        invariant
            i <= list@.len(),
            forall|j: int| 0 <= j < i ==> list@[j]@ != s@,
        decreases list@.len() - i,
    {
        if str_eq(list[i].as_str(), s) {
            proof {
                assert(texts(list@)[i as int] == s@);
            }
            return true;
        }
        i = i + 1;
    }
    proof {
        if texts(list@).contains(s@) {
            let j = choose|j: int| 0 <= j < texts(list@).len() && texts(list@)[j] == s@;
            assert(list@[j]@ == s@);
        }
    }
    false
}

/// Coerce the override `raw` of `key`, whose current value is
/// `existing` and whose admissible values (for an enum) are `allowed`.
pub fn coerce_override(
    key: &str,
    raw: &OverrideValue,
    existing: &SettingValue,
    allowed: Option<&Vec<String>>,
) -> (r: Result<SettingValue, SettingsOverrideError>)
    ensures
        match r {
            Ok(v) => coerce_ok(*raw, existing@, opt_texts(allowed)) == Some(v@),
            Err(e) => coerce_ok(*raw, existing@, opt_texts(allowed)) is None && coerce_error(
                key@,
                *raw,
                existing@,
                opt_texts(allowed),
                e,
            ),
        },
{
    match (existing, raw) {
        (SettingValue::Boolean(_), OverrideValue::Bool(b)) => Ok(SettingValue::Boolean(*b)),
        (SettingValue::String(_), OverrideValue::String(s)) => Ok(
            SettingValue::String(owned(s.as_str())),
        ),
        (SettingValue::Number(_), OverrideValue::Number(n)) => Ok(SettingValue::Number(*n)),
        (SettingValue::EnumString(_), OverrideValue::String(s)) => {
            if let Some(values) = allowed {
                if !contains_text(values, s.as_str()) {
                    return Err(
                        SettingsOverrideError::EnumOutOfRange {
                            key: owned(key),
                            got: owned(s.as_str()),
                            values: copy_strings(values),
                        },
                    );
                }
            }
            Ok(SettingValue::EnumString(owned(s.as_str())))
        },
        (SettingValue::Boolean(_), other) => Err(
            SettingsOverrideError::TypeMismatch {
                key: owned(key),
                expected: "boolean",
                got: json_kind_str(other),
            },
        ),
        (SettingValue::String(_), other) => Err(
            SettingsOverrideError::TypeMismatch {
                key: owned(key),
                expected: "string",
                got: json_kind_str(other),
            },
        ),
        (SettingValue::Number(_), other) => Err(
            SettingsOverrideError::TypeMismatch {
                key: owned(key),
                expected: "number",
                got: json_kind_str(other),
            },
        ),
        (SettingValue::EnumString(_), other) => Err(
            SettingsOverrideError::TypeMismatch {
                key: owned(key),
                expected: "enum (string)",
                got: json_kind_str(other),
            },
        ),
    }
}

/// The name of an override's JSON kind.
fn json_kind_str(v: &OverrideValue) -> (s: &'static str)
    ensures
        s@ == json_kind(*v),
{
    match v {
        OverrideValue::Null => "null",
        OverrideValue::Bool(_) => "boolean",
        OverrideValue::Number(_) => "number",
        OverrideValue::String(_) => "string",
        OverrideValue::Array => "array",
        OverrideValue::Object => "object",
    }
}

/// The texts of an optional list.
pub open spec fn opt_texts(o: Option<&Vec<String>>) -> Option<Seq<Seq<char>>> {
    match o {
        Some(v) => Some(texts(v@)),
        None => None,
    }
}

pub struct SettingsStore {
    by_key: Vec<(String, SettingValue)>,
    enum_values: Vec<(String, Vec<String>)>,
    announced: Vec<SettingChanged>,
}

/// The announcement a successful `set` makes: the setting's path
/// (`/setting/<key>`) and its new value.
pub struct SettingChanged {
    pub setting: String,
    pub value: SettingValue,
}

/// `/setting/<key>`.
pub open spec fn setting_path(key: Seq<char>) -> Seq<char> {
    join_path(seq![seq!['s', 'e', 't', 't', 'i', 'n', 'g'], key])
}

/// An announcement as its path text and value.
pub open spec fn changed_view(c: SettingChanged) -> (Seq<char>, SettingView) {
    (c.setting@, c.value@)
}

/// A copy of `v`.
fn copy_value(v: &SettingValue) -> (r: SettingValue)
    ensures
        r@ == v@,
{
    match v {
        SettingValue::Boolean(b) => SettingValue::Boolean(*b),
        SettingValue::String(t) => SettingValue::String(owned(t.as_str())),
        SettingValue::Number(n) => SettingValue::Number(*n),
        SettingValue::EnumString(t) => SettingValue::EnumString(owned(t.as_str())),
    }
}

impl SettingsStore {
    #[verifier::type_invariant]
    spec fn inv(self) -> bool {
        &&& keys_distinct(values_view(self.by_key@))
        &&& keys_distinct(enums_view(self.enum_values@))
    }

    /// The current value of each registered key.
    pub closed spec fn values(&self) -> Map<Seq<char>, SettingView> {
        table_map(values_view(self.by_key@))
    }

    /// The admissible values of each enum setting.
    pub closed spec fn enums(&self) -> Map<Seq<char>, Seq<Seq<char>>> {
        table_map(enums_view(self.enum_values@))
    }

    /// The number of registered keys.
    pub closed spec fn size(&self) -> nat {
        self.by_key@.len()
    }

    /// The changes announced and not yet taken, oldest first.
    pub closed spec fn announcements(&self) -> Seq<(Seq<char>, SettingView)> {
        self.announced@.map_values(|c: SettingChanged| changed_view(c))
    }

    pub fn new() -> (s: Self)
        ensures
            s.values() == Map::<Seq<char>, SettingView>::empty(),
            s.enums() == Map::<Seq<char>, Seq<Seq<char>>>::empty(),
            s.size() == 0,
            s.announcements() == Seq::<(Seq<char>, SettingView)>::empty(),
    {
        let s = SettingsStore { by_key: Vec::new(), enum_values: Vec::new(), announced: Vec::new() };
        proof {
            assert(s.announcements() =~= Seq::<(Seq<char>, SettingView)>::empty());
            assert(s.values() =~= Map::<Seq<char>, SettingView>::empty());
            assert(s.enums() =~= Map::<Seq<char>, Seq<Seq<char>>>::empty());
        }
        s
    }

    fn key_index(&self, key: &str) -> (r: Option<usize>)
        ensures
            r matches Some(i) ==> i < self.by_key@.len() && self.by_key@[i as int].0@ == key@,
            r is None ==> forall|j: int|
                0 <= j < self.by_key@.len() ==> values_view(self.by_key@)[j].0 != key@,
    {
        let mut i: usize = 0;
        while i < self.by_key.len()
            invariant
                i <= self.by_key@.len(),
                forall|j: int| 0 <= j < i ==> values_view(self.by_key@)[j].0 != key@,
            decreases self.by_key@.len() - i,
        {
            if str_eq(self.by_key[i].0.as_str(), key) {
                return Some(i);
            }
            i = i + 1;
        }
        None
    }

    fn enum_index(&self, key: &str) -> (r: Option<usize>)
        ensures
            r matches Some(i) ==> i < self.enum_values@.len() && self.enum_values@[i as int].0@
                == key@,
            r is None ==> forall|j: int|
                0 <= j < self.enum_values@.len() ==> enums_view(self.enum_values@)[j].0 != key@,
    {
        let mut i: usize = 0;
        while i < self.enum_values.len()
            invariant
                i <= self.enum_values@.len(),
                forall|j: int| 0 <= j < i ==> enums_view(self.enum_values@)[j].0 != key@,
            decreases self.enum_values@.len() - i,
        {
            if str_eq(self.enum_values[i].0.as_str(), key) {
                return Some(i);
            }
            i = i + 1;
        }
        None
    }

    /// The current value of `key`.
    pub fn get(&self, key: &str) -> (r: Option<&SettingValue>)
        ensures
            match r {
                Some(v) => map_get(self.values(), key@) == Some(v@),
                None => map_get(self.values(), key@) is None,
            },
    {
        proof {
            use_type_invariant(self);
        }
        let ghost vs = values_view(self.by_key@);
        match self.key_index(key) {
            Some(i) => {
                proof {
                    lemma_lookup_present(vs, i as int);
                }
                Some(&self.by_key[i].1)
            },
            None => {
                proof {
                    lemma_lookup_absent(vs, key@);
                }
                None
            },
        }
    }

    /// The admissible values of the enum setting `key`.
    fn allowed(&self, key: &str) -> (r: Option<&Vec<String>>)
        ensures
            match r {
                Some(v) => map_get(self.enums(), key@) == Some(texts(v@)),
                None => map_get(self.enums(), key@) is None,
            },
    {
        proof {
            use_type_invariant(self);
        }
        let ghost es = enums_view(self.enum_values@);
        match self.enum_index(key) {
            Some(i) => {
                proof {
                    lemma_lookup_present(es, i as int);
                }
                Some(&self.enum_values[i].1)
            },
            None => {
                proof {
                    lemma_lookup_absent(es, key@);
                }
                None
            },
        }
    }

    /// Replace the value of the registered key at `i`.
    fn replace_value(&mut self, i: usize, v: SettingValue)
        requires
            i < old(self).by_key@.len(),
        ensures
            final(self).values() == old(self).values().insert(old(self).by_key@[i as int].0@, v@),
            final(self).enums() == old(self).enums(),
            final(self).size() == old(self).size(),
            final(self).announcements() == old(self).announcements(),
    {
        proof {
            use_type_invariant(&*self);
        }
        let ghost before = self.values();
        let ghost vs = values_view(self.by_key@);
        let ghost k = vs[i as int].0;
        let mut tab: Vec<(String, SettingValue)> = Vec::new();
        proof {
            assert(values_view(tab@) =~= Seq::empty());
        }
        std::mem::swap(&mut tab, &mut self.by_key);
        let key = owned(tab[i].0.as_str());
        tab.set(i, (key, v));
        proof {
            lemma_lookup_update(vs, i as int, k, v@);
            assert(values_view(tab@) =~= vs.update(i as int, (k, v@)));
        }
        self.by_key = tab;
        proof {
            assert(self.values() =~= before.insert(k, v@));
        }
    }

    /// Register a new key with value `v`.
    fn push_value(&mut self, key: &str, v: SettingValue)
        requires
            !old(self).values().contains_key(key@),
        ensures
            final(self).values() == old(self).values().insert(key@, v@),
            final(self).enums() == old(self).enums(),
            final(self).size() == old(self).size() + 1,
            final(self).announcements() == old(self).announcements(),
    {
        proof {
            use_type_invariant(&*self);
        }
        let ghost before = self.values();
        let ghost vs = values_view(self.by_key@);
        proof {
            assert forall|j: int| 0 <= j < vs.len() implies vs[j].0 != key@ by {
                if vs[j].0 == key@ {
                    lemma_lookup_present(vs, j);
                }
            }
        }
        let mut tab: Vec<(String, SettingValue)> = Vec::new();
        proof {
            assert(values_view(tab@) =~= Seq::empty());
        }
        std::mem::swap(&mut tab, &mut self.by_key);
        tab.push((owned(key), v));
        proof {
            lemma_lookup_push(vs, key@, v@);
            assert(values_view(tab@) =~= vs.push((key@, v@)));
        }
        self.by_key = tab;
        proof {
            assert(self.values() =~= before.insert(key@, v@));
        }
    }

    /// Record the admissible values of the enum setting `key`.
    fn put_enum(&mut self, key: &str, values: Vec<String>)
        ensures
            final(self).enums() == old(self).enums().insert(key@, texts(values@)),
            final(self).values() == old(self).values(),
            final(self).size() == old(self).size(),
            final(self).announcements() == old(self).announcements(),
    {
        proof {
            use_type_invariant(&*self);
        }
        let ghost before = self.enums();
        let ghost es = enums_view(self.enum_values@);
        let found = self.enum_index(key);
        let mut tab: Vec<(String, Vec<String>)> = Vec::new();
        proof {
            assert(enums_view(tab@) =~= Seq::empty());
        }
        std::mem::swap(&mut tab, &mut self.enum_values);
        let ghost tv = texts(values@);
        match found {
            Some(i) => {
                tab.set(i, (owned(key), values));
                proof {
                    lemma_lookup_update(es, i as int, key@, tv);
                    assert(enums_view(tab@) =~= es.update(i as int, (key@, tv)));
                }
            },
            None => {
                tab.push((owned(key), values));
                proof {
                    lemma_lookup_push(es, key@, tv);
                    assert(enums_view(tab@) =~= es.push((key@, tv)));
                }
            },
        }
        self.enum_values = tab;
        proof {
            assert(self.enums() =~= before.insert(key@, tv));
        }
    }

    /// Register one declaration: a key seen before keeps its value
    /// (first declaration wins). Returns whether the key was new.
    pub fn register(&mut self, key: &str, spec: &SettingSpec) -> (added: bool)
        ensures
            added == !old(self).values().contains_key(key@),
            added ==> final(self).values() == old(self).values().insert(key@, default_view(*spec))
                && final(self).enums() == (match *spec {
                SettingSpec::Enum { default: _, values } => old(self).enums().insert(
                    key@,
                    texts(values@),
                ),
                _ => old(self).enums(),
            }) && final(self).size() == old(self).size() + 1,
            !added ==> final(self).values() == old(self).values() && final(self).enums() == old(
                self,
            ).enums() && final(self).size() == old(self).size(),
            final(self).announcements() == old(self).announcements(),
    {
        proof {
            use_type_invariant(&*self);
        }
        let ghost vs = values_view(self.by_key@);
        match self.key_index(key) {
            Some(i) => {
                proof {
                    lemma_lookup_present(vs, i as int);
                }
                return false;
            },
            None => {
                proof {
                    lemma_lookup_absent(vs, key@);
                }
            },
        }
        let value = match spec {
            SettingSpec::Boolean { default } => SettingValue::Boolean(*default),
            SettingSpec::String { default } => SettingValue::String(owned(default.as_str())),
            SettingSpec::Number { default } => SettingValue::Number(*default),
            SettingSpec::Enum { default, values } => {
                self.put_enum(key, copy_strings(values));
                SettingValue::EnumString(owned(default.as_str()))
            },
        };
        self.push_value(key, value);
        true
    }

    /// Register every declaration of `settings` in order (first
    /// declaration of a key wins). Returns how many keys were new.
    pub fn register_from_manifest(&mut self, settings: &[(String, SettingSpec)]) -> (added: usize)
        ensures
            (final(self).values(), final(self).enums(), added as nat) == register_settings(
                old(self).values(),
                old(self).enums(),
                settings@,
            ),
            final(self).size() == old(self).size() + added,
            final(self).announcements() == old(self).announcements(),
    {
        let ghost v0 = self.values();
        let ghost e0 = self.enums();
        let ghost s0 = self.size();
        let mut added: usize = 0;
        let mut i: usize = 0;
        proof {
            assert(settings@.take(0) =~= Seq::<(String, SettingSpec)>::empty());
        }
        while i < settings.len()
            invariant
                i <= settings@.len(),
                added <= i,
                v0 == old(self).values(),
                e0 == old(self).enums(),
                s0 == old(self).size(),
                self.size() == s0 + added,
                self.announcements() == old(self).announcements(),
                (self.values(), self.enums(), added as nat) == register_settings(
                    v0,
                    e0,
                    settings@.take(i as int),
                ),
            decreases settings@.len() - i,
        {
            proof {
                assert(settings@.take(i + 1).drop_last() =~= settings@.take(i as int));
                assert(settings@.take(i + 1).last() == settings@[i as int]);
            }
            if self.register(settings[i].0.as_str(), &settings[i].1) {
                added = added + 1;
            }
            i = i + 1;
        }
        proof {
            assert(settings@.take(i as int) =~= settings@);
        }
        added
    }

    /// Set `key` to `value` and announce the change: a
    /// `SettingChanged` for `/setting/<key>` with the new value is queued
    /// (see `take_announcements`) when the key is a single path segment.
    /// Refused (returning `false`, the store unchanged, nothing
    /// announced) when no declaration made the key, when the value is of
    /// another kind, or when an enum value is not admissible.
    pub fn set(&mut self, key: &str, value: SettingValue) -> (ok: bool)
        ensures
            ok == (old(self).values().contains_key(key@) && same_kind(
                old(self).values()[key@],
                value@,
            ) && admissible(map_get(old(self).enums(), key@), value@)),
            ok ==> final(self).values() == old(self).values().insert(key@, value@),
            !ok ==> final(self).values() == old(self).values(),
            final(self).enums() == old(self).enums(),
            final(self).size() == old(self).size(),
            final(self).announcements() == (if ok && is_segment(key@) {
                old(self).announcements().push((setting_path(key@), value@))
            } else {
                old(self).announcements()
            }),
    {
        let announce = copy_value(&value);
        if !self.set_quiet(key, value) {
            return false;
        }
        if segment_valid(key) {
            let mut segs: Vec<String> = Vec::new();
            segs.push(owned("setting"));
            segs.push(owned(key));
            proof {
                reveal_strlit("setting");
                assert("setting"@ =~= seq!['s', 'e', 't', 't', 'i', 'n', 'g']);
                assert(seg_chars(segs@) =~= seq![seq!['s', 'e', 't', 't', 'i', 'n', 'g'], key@]);
            }
            let change = SettingChanged { setting: join_segments(segs.as_slice()), value: announce };
            let ghost before = self.announced@;
            let mut queue: Vec<SettingChanged> = Vec::new();
            proof {
                use_type_invariant(&*self);
            }
            std::mem::swap(&mut queue, &mut self.announced);
            queue.push(change);
            self.announced = queue;
            proof {
                assert(self.announced@.map_values(|c: SettingChanged| changed_view(c)) =~= before.map_values(
                    |c: SettingChanged| changed_view(c),
                ).push((setting_path(key@), self.values()[key@])));
            }
        }
        true
    }

    /// Take the queued announcements, oldest first, leaving none.
    pub fn take_announcements(&mut self) -> (r: Vec<SettingChanged>)
        ensures
            r@.map_values(|c: SettingChanged| changed_view(c)) == old(self).announcements(),
            final(self).announcements() == Seq::<(Seq<char>, SettingView)>::empty(),
            final(self).values() == old(self).values(),
            final(self).enums() == old(self).enums(),
            final(self).size() == old(self).size(),
    {
        let mut r: Vec<SettingChanged> = Vec::new();
        proof {
            use_type_invariant(&*self);
        }
        std::mem::swap(&mut r, &mut self.announced);
        proof {
            assert(self.announcements() =~= Seq::<(Seq<char>, SettingView)>::empty());
        }
        r
    }

    /// `set` without the announcement (overrides apply silently).
    fn set_quiet(&mut self, key: &str, value: SettingValue) -> (ok: bool)
        ensures
            ok == (old(self).values().contains_key(key@) && same_kind(
                old(self).values()[key@],
                value@,
            ) && admissible(map_get(old(self).enums(), key@), value@)),
            ok ==> final(self).values() == old(self).values().insert(key@, value@),
            !ok ==> final(self).values() == old(self).values(),
            final(self).enums() == old(self).enums(),
            final(self).size() == old(self).size(),
            final(self).announcements() == old(self).announcements(),
    {
        proof {
            use_type_invariant(&*self);
        }
        let ghost vs = values_view(self.by_key@);
        let i = match self.key_index(key) {
            Some(i) => i,
            None => {
                proof {
                    lemma_lookup_absent(vs, key@);
                }
                return false;
            },
        };
        proof {
            lemma_lookup_present(vs, i as int);
        }
        let kinds_match = match (&self.by_key[i].1, &value) {
            (SettingValue::Boolean(_), SettingValue::Boolean(_)) => true,
            (SettingValue::String(_), SettingValue::String(_)) => true,
            (SettingValue::Number(_), SettingValue::Number(_)) => true,
            (SettingValue::EnumString(_), SettingValue::EnumString(_)) => true,
            _ => false,
        };
        if !kinds_match {
            return false;
        }
        if let SettingValue::EnumString(s) = &value {
            if let Some(list) = self.allowed(key) {
                if !contains_text(list, s.as_str()) {
                    return false;
                }
            }
        }
        self.replace_value(i, value);
        true
    }

    /// Apply overrides `(key, raw value)` in order. Keys no declaration
    /// made are skipped (they may belong to a plugin that isn't loaded).
    /// A value of the wrong kind, or an enum value outside its list, is
    /// refused with that error; the overrides before it stay applied.
    /// Returns how many applied.
    pub fn apply_overrides(&mut self, overrides: &[(String, OverrideValue)]) -> (r: Result<
        usize,
        SettingsOverrideError,
    >)
        ensures
            final(self).enums() == old(self).enums(),
            final(self).size() == old(self).size(),
            final(self).announcements() == old(self).announcements(),
            match r {
                Ok(n) => override_fold(old(self).values(), old(self).enums(), overrides@) == Some(
                    (final(self).values(), n as nat),
                ),
                Err(e) => exists|k: int|
                    0 <= k < overrides@.len() && (#[trigger] override_fold(
                        old(self).values(),
                        old(self).enums(),
                        overrides@.take(k),
                    ) matches Some((v, _)) && v == final(self).values() && v.contains_key(
                        overrides@[k].0@,
                    ) && coerce_ok(
                        overrides@[k].1,
                        v[overrides@[k].0@],
                        map_get(old(self).enums(), overrides@[k].0@),
                    ) is None && coerce_error(
                        overrides@[k].0@,
                        overrides@[k].1,
                        v[overrides@[k].0@],
                        map_get(old(self).enums(), overrides@[k].0@),
                        e,
                    )),
            },
    {
        let ghost v0 = self.values();
        let ghost e0 = self.enums();
        let mut applied: usize = 0;
        let mut i: usize = 0;
        proof {
            assert(overrides@.take(0) =~= Seq::<(String, OverrideValue)>::empty());
        }
        while i < overrides.len()
            invariant
                i <= overrides@.len(),
                applied <= i,
                v0 == old(self).values(),
                e0 == old(self).enums(),
                self.enums() == e0,
                self.size() == old(self).size(),
                self.announcements() == old(self).announcements(),
                override_fold(v0, e0, overrides@.take(i as int)) == Some(
                    (self.values(), applied as nat),
                ),
            decreases overrides@.len() - i,
        {
            proof {
                assert(overrides@.take(i + 1).drop_last() =~= overrides@.take(i as int));
                assert(overrides@.take(i + 1).last() == overrides@[i as int]);
            }
            let key = overrides[i].0.as_str();
            let existing = match self.get(key) {
                Some(v) => v,
                None => {
                    i = i + 1;
                    continue;
                },
            };
            let coerced = match coerce_override(key, &overrides[i].1, existing, self.allowed(key)) {
                Ok(v) => v,
                Err(e) => {
                    return Err(e);
                },
            };
            let ok = self.set_quiet(key, coerced);
            proof {
                assert(ok);
            }
            applied = applied + 1;
            i = i + 1;
        }
        proof {
            assert(overrides@.take(i as int) =~= overrides@);
        }
        Ok(applied)
    }

    pub fn len(&self) -> (n: usize)
        ensures
            n == self.size(),
    {
        self.by_key.len()
    }

    pub fn is_empty(&self) -> (b: bool)
        ensures
            b == (self.size() == 0),
    {
        self.by_key.len() == 0
    }
}

} // verus!
