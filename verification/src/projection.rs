//! Schema projections: declared record shapes and their deserialization
//! from the field set surfaced by a retrieval path.

use crate::errors::{ErrorModel, ReconcileError};
use vstd::prelude::*;

verus! {

/// The marking of a declared field.
///
/// A shape that declares no identity-marked field at all is an
/// identity-absent shape: a surfaced identifier-derived value is then
/// silently dropped.
#[derive(Debug, Clone, Copy, PartialEq, Eq, Structural)]
pub enum FieldKind {
    /// An identity-derived text field that must be present in the result.
    IdentityRequired,
    /// An identity-derived text field, bound to nothing when absent.
    IdentityOptional,
    /// An ordinary text field.
    PlainText,
    /// An ordinary integer field.
    PlainInt,
}

/// Whether a marking makes the field identity-bearing.
pub open spec fn is_identity_kind(k: FieldKind) -> bool {
    k == FieldKind::IdentityRequired || k == FieldKind::IdentityOptional
}

/// A value as stored by the engine and surfaced in a result set.
#[derive(Debug)]
pub enum StoredValue {
    Text(String),
    Int(i64),
}

/// The mathematical shape of a `StoredValue`.
pub ghost enum StoredModel {
    Text(Seq<char>),
    Int(int),
}

impl View for StoredValue {
    type V = StoredModel;

    open spec fn view(&self) -> StoredModel {
        match self {
            StoredValue::Text(s) => StoredModel::Text(s@),
            StoredValue::Int(n) => StoredModel::Int(*n as int),
        }
    }
}

impl Clone for StoredValue {
    fn clone(&self) -> (r: Self)
        ensures
            r@ == self@,
    {
        match self {
            StoredValue::Text(s) => StoredValue::Text(s.clone()),
            StoredValue::Int(n) => StoredValue::Int(*n),
        }
    }
}

/// A value bound to a declared field by deserialization.
#[derive(Debug)]
pub enum FieldValue {
    Text(String),
    Int(i64),
    OptText(Option<String>),
}

/// The mathematical shape of a `FieldValue`.
pub ghost enum ValueModel {
    Text(Seq<char>),
    Int(int),
    OptText(Option<Seq<char>>),
}

impl View for FieldValue {
    type V = ValueModel;

    open spec fn view(&self) -> ValueModel {
        match self {
            FieldValue::Text(s) => ValueModel::Text(s@),
            FieldValue::Int(n) => ValueModel::Int(*n as int),
            FieldValue::OptText(o) => match o {
                Some(s) => ValueModel::OptText(Some(s@)),
                None => ValueModel::OptText(None),
            },
        }
    }
}

impl PartialEq for FieldValue {
    fn eq(&self, other: &Self) -> (r: bool) {
        match (self, other) {
            (FieldValue::Text(a), FieldValue::Text(b)) => *a == *b,
            (FieldValue::Int(a), FieldValue::Int(b)) => *a == *b,
            (FieldValue::OptText(a), FieldValue::OptText(b)) => match (a, b) {
                (Some(x), Some(y)) => *x == *y,
                (None, None) => true,
                _ => false,
            },
            _ => false,
        }
    }
}

impl vstd::std_specs::cmp::PartialEqSpecImpl for FieldValue {
    open spec fn obeys_eq_spec() -> bool {
        true
    }

    open spec fn eq_spec(&self, other: &Self) -> bool {
        self@ == other@
    }
}

impl Clone for FieldValue {
    fn clone(&self) -> (r: Self)
        ensures
            r@ == self@,
    {
        match self {
            FieldValue::Text(s) => FieldValue::Text(s.clone()),
            FieldValue::Int(n) => FieldValue::Int(*n),
            FieldValue::OptText(o) => match o {
                Some(s) => FieldValue::OptText(Some(s.clone())),
                None => FieldValue::OptText(None),
            },
        }
    }
}

/// One declared field of a shape.
#[derive(Debug)]
pub struct FieldDecl {
    pub name: String,
    pub kind: FieldKind,
}

/// The mathematical shape of a `FieldDecl`.
pub ghost struct DeclModel {
    pub name: Seq<char>,
    pub kind: FieldKind,
}

impl View for FieldDecl {
    type V = DeclModel;

    open spec fn view(&self) -> DeclModel {
        DeclModel { name: self.name@, kind: self.kind }
    }
}

impl Clone for FieldDecl {
    fn clone(&self) -> (r: Self)
        ensures
            r@ == self@,
    {
        FieldDecl { name: self.name.clone(), kind: self.kind }
    }
}

/// The declared field names are pairwise distinct.
pub open spec fn distinct_names(fields: Seq<DeclModel>) -> bool {
    forall|i: int, j: int|
        #![trigger fields[i], fields[j]]
        0 <= i < j < fields.len() ==> fields[i].name != fields[j].name
}

/// At most one declared field is identity-bearing.
pub open spec fn at_most_one_identity(fields: Seq<DeclModel>) -> bool {
    forall|i: int, j: int|
        #![trigger fields[i], fields[j]]
        0 <= i < j < fields.len() ==> !(is_identity_kind(fields[i].kind) && is_identity_kind(
            fields[j].kind,
        ))
}

/// A well-formed shape: distinct field names, at most one identity field.
pub open spec fn proj_wf(fields: Seq<DeclModel>) -> bool {
    distinct_names(fields) && at_most_one_identity(fields)
}

/// The index of the identity-bearing field of a shape, if any.
pub open spec fn identity_index(fields: Seq<DeclModel>) -> Option<int>
    decreases fields.len(),
{
    if fields.len() == 0 {
        None
    } else if is_identity_kind(fields[0].kind) {
        Some(0)
    } else {
        match identity_index(fields.skip(1)) {
            None => None,
            Some(i) => Some(i + 1),
        }
    }
}

proof fn lemma_identity_index_at(fields: Seq<DeclModel>, i: int)
    requires
        0 <= i < fields.len(),
        is_identity_kind(fields[i].kind),
        forall|j: int| 0 <= j < i ==> !is_identity_kind(#[trigger] fields[j].kind),
    ensures
        identity_index(fields) == Some(i),
    decreases i,
{
    if i > 0 {
        let t = fields.skip(1);
        assert(forall|j: int| 0 <= j < t.len() ==> #[trigger] t[j] == fields[j + 1]);
        lemma_identity_index_at(t, i - 1);
    }
}

proof fn lemma_identity_index_none(fields: Seq<DeclModel>)
    requires
        forall|j: int| 0 <= j < fields.len() ==> !is_identity_kind(#[trigger] fields[j].kind),
    ensures
        identity_index(fields) is None,
    decreases fields.len(),
{
    if fields.len() > 0 {
        let t = fields.skip(1);
        assert(forall|j: int| 0 <= j < t.len() ==> #[trigger] t[j] == fields[j + 1]);
        lemma_identity_index_none(t);
    }
}

/// A declared record shape: a fixed set of named, marked fields.
#[derive(Debug)]
pub struct Projection {
    fields: Vec<FieldDecl>,
}

impl View for Projection {
    type V = Seq<DeclModel>;

    closed spec fn view(&self) -> Seq<DeclModel> {
        self.fields@.map_values(|d: FieldDecl| d@)
    }
}

/// Whether the marking is identity-bearing.
fn kind_is_identity(k: FieldKind) -> (b: bool)
    ensures
        b == is_identity_kind(k),
{
    match k {
        FieldKind::IdentityRequired => true,
        FieldKind::IdentityOptional => true,
        _ => false,
    }
}

impl Projection {
    /// Builds a shape, refusing duplicated field names and more than one
    /// identity-bearing field.
    pub fn new(fields: Vec<FieldDecl>) -> (r: Option<Projection>)
        ensures
            match r {
                Some(p) => proj_wf(p@) && p@ == fields@.map_values(|d: FieldDecl| d@),
                None => !proj_wf(fields@.map_values(|d: FieldDecl| d@)),
            },
    {
        let ghost m = fields@.map_values(|d: FieldDecl| d@);
        let n = fields.len();
        let mut i: usize = 0;
        while i < n
            invariant
                i <= n,
                n == fields@.len(),
                m == fields@.map_values(|d: FieldDecl| d@),
                forall|a: int, b: int|
                    #![trigger m[a], m[b]]
                    0 <= a < b < m.len() && a < i ==> m[a].name != m[b].name && !(is_identity_kind(
                        m[a].kind,
                    ) && is_identity_kind(m[b].kind)),
            decreases n - i,
        {
            let mut j: usize = i + 1;
            while j < n
                invariant
                    i < j <= n,
                    n == fields@.len(),
                    m == fields@.map_values(|d: FieldDecl| d@),
                    forall|b: int|
                        #![trigger m[b]]
                        i < b < j ==> m[i as int].name != m[b].name && !(is_identity_kind(
                            m[i as int].kind,
                        ) && is_identity_kind(m[b].kind)),
                decreases n - j,
            {
                if fields[i].name == fields[j].name {
                    proof {
                        assert(m[i as int] == fields@[i as int]@);
                        assert(m[j as int] == fields@[j as int]@);
                        assert(m[i as int].name == m[j as int].name);
                        assert(!distinct_names(m));
                    }
                    return None;
                }
                if kind_is_identity(fields[i].kind) && kind_is_identity(fields[j].kind) {
                    proof {
                        assert(m[i as int] == fields@[i as int]@);
                        assert(m[j as int] == fields@[j as int]@);
                        assert(!at_most_one_identity(m));
                    }
                    return None;
                }
                j = j + 1;
            }
            i = i + 1;
        }
        Some(Projection { fields })
    }

    /// The number of declared fields.
    pub fn len(&self) -> (n: usize)
        ensures
            n == self@.len(),
    {
        self.fields.len()
    }

    /// The declared field at `i`.
    pub fn field(&self, i: usize) -> (d: &FieldDecl)
        requires
            i < self@.len(),
        ensures
            d@ == self@[i as int],
    {
        &self.fields[i]
    }

    /// The name of the identity-bearing field, if the shape declares one.
    pub fn identity_name(&self) -> (r: Option<String>)
        ensures
            match r {
                Some(name) => identity_index(self@) matches Some(i) && self@[i].name == name@,
                None => identity_index(self@) is None,
            },
    {
        let n = self.fields.len();
        let mut i: usize = 0;
        while i < n
            invariant
                i <= n,
                n == self@.len(),
                self@ == self.fields@.map_values(|d: FieldDecl| d@),
                forall|j: int| 0 <= j < i ==> !is_identity_kind(#[trigger] self@[j].kind),
            decreases n - i,
        {
            if kind_is_identity(self.fields[i].kind) {
                proof {
                    lemma_identity_index_at(self@, i as int);
                }
                return Some(self.fields[i].name.clone());
            }
            i = i + 1;
        }
        proof {
            lemma_identity_index_none(self@);
        }
        None
    }
}

/// The model of a surfaced field list.
pub open spec fn stored_view(s: Seq<(String, StoredValue)>) -> Seq<(Seq<char>, StoredModel)> {
    s.map_values(|p: (String, StoredValue)| (p.0@, p.1@))
}

/// The model of a typed record's field list.
pub open spec fn record_view(s: Seq<(String, FieldValue)>) -> Seq<(Seq<char>, ValueModel)> {
    s.map_values(|p: (String, FieldValue)| (p.0@, p.1@))
}

/// The first value stored under `name`, if any.
pub open spec fn assoc_lookup<T>(fields: Seq<(Seq<char>, T)>, name: Seq<char>) -> Option<T>
    decreases fields.len(),
{
    if fields.len() == 0 {
        None
    } else if fields[0].0 == name {
        Some(fields[0].1)
    } else {
        assoc_lookup(fields.skip(1), name)
    }
}

pub proof fn lemma_assoc_at<T>(fields: Seq<(Seq<char>, T)>, name: Seq<char>, i: int)
    requires
        0 <= i < fields.len(),
        fields[i].0 == name,
        forall|j: int| 0 <= j < i ==> (#[trigger] fields[j]).0 != name,
    ensures
        assoc_lookup(fields, name) == Some(fields[i].1),
    decreases i,
{
    if i > 0 {
        let t = fields.skip(1);
        assert(forall|j: int| 0 <= j < t.len() ==> #[trigger] t[j] == fields[j + 1]);
        lemma_assoc_at(t, name, i - 1);
    }
}

pub proof fn lemma_assoc_none<T>(fields: Seq<(Seq<char>, T)>, name: Seq<char>)
    requires
        forall|j: int| 0 <= j < fields.len() ==> (#[trigger] fields[j]).0 != name,
    ensures
        assoc_lookup(fields, name) is None,
    decreases fields.len(),
{
    if fields.len() > 0 {
        let t = fields.skip(1);
        assert(forall|j: int| 0 <= j < t.len() ==> #[trigger] t[j] == fields[j + 1]);
        lemma_assoc_none(t, name);
    }
}

/// The typed value bound to one declared field from the surfaced field set.
///
/// An identity-optional field never fails solely because the value is
/// absent; a required one fails with `MissingIdentityField`; a plain field
/// whose stored value is absent or of the wrong type fails with
/// `TypeMismatch`.
pub open spec fn project_field(stored: Seq<(Seq<char>, StoredModel)>, d: DeclModel) -> Result<
    ValueModel,
    ErrorModel,
> {
    match d.kind {
        FieldKind::IdentityRequired => match assoc_lookup(stored, d.name) {
            None => Err(ErrorModel::MissingIdentityField(d.name)),
            Some(StoredModel::Text(s)) => Ok(ValueModel::Text(s)),
            Some(StoredModel::Int(_)) => Err(ErrorModel::TypeMismatch(d.name)),
        },
        FieldKind::IdentityOptional => match assoc_lookup(stored, d.name) {
            None => Ok(ValueModel::OptText(None)),
            Some(StoredModel::Text(s)) => Ok(ValueModel::OptText(Some(s))),
            Some(StoredModel::Int(_)) => Err(ErrorModel::TypeMismatch(d.name)),
        },
        FieldKind::PlainText => match assoc_lookup(stored, d.name) {
            Some(StoredModel::Text(s)) => Ok(ValueModel::Text(s)),
            _ => Err(ErrorModel::TypeMismatch(d.name)),
        },
        FieldKind::PlainInt => match assoc_lookup(stored, d.name) {
            Some(StoredModel::Int(n)) => Ok(ValueModel::Int(n)),
            _ => Err(ErrorModel::TypeMismatch(d.name)),
        },
    }
}

/// The deserialization of a whole shape: each declared field in order, the
/// first failing field's error propagated.
pub open spec fn deserialize_spec(
    stored: Seq<(Seq<char>, StoredModel)>,
    shape: Seq<DeclModel>,
) -> Result<Seq<(Seq<char>, ValueModel)>, ErrorModel>
    decreases shape.len(),
{
    if shape.len() == 0 {
        Ok(Seq::empty())
    } else {
        match deserialize_spec(stored, shape.drop_last()) {
            Err(e) => Err(e),
            Ok(pre) => match project_field(stored, shape.last()) {
                Err(e) => Err(e),
                Ok(v) => Ok(pre.push((shape.last().name, v))),
            },
        }
    }
}

/// A failing prefix decides the whole deserialization.
proof fn lemma_deserialize_failed_prefix(
    stored: Seq<(Seq<char>, StoredModel)>,
    shape: Seq<DeclModel>,
    k: int,
    e: ErrorModel,
)
    requires
        0 <= k <= shape.len(),
        deserialize_spec(stored, shape.take(k)) == Result::<
            Seq<(Seq<char>, ValueModel)>,
            ErrorModel,
        >::Err(e),
    ensures
        deserialize_spec(stored, shape) == Result::<
            Seq<(Seq<char>, ValueModel)>,
            ErrorModel,
        >::Err(e),
    decreases shape.len() - k,
{
    if k == shape.len() {
        assert(shape.take(k) =~= shape);
    } else {
        assert(shape.take(k + 1).drop_last() =~= shape.take(k));
        lemma_deserialize_failed_prefix(stored, shape, k + 1, e);
    }
}

/// A successful deserialization binds each declared field, in declaration
/// order, to its projected value.
pub proof fn lemma_deserialize_entries(
    stored: Seq<(Seq<char>, StoredModel)>,
    shape: Seq<DeclModel>,
)
    ensures
        deserialize_spec(stored, shape) matches Ok(rec) ==> rec.len() == shape.len() && forall|
            k: int,
        |
            0 <= k < shape.len() ==> project_field(stored, #[trigger] shape[k]) == Ok::<
                ValueModel,
                ErrorModel,
            >(rec[k].1) && rec[k].0 == shape[k].name,
    decreases shape.len(),
{
    if shape.len() > 0 {
        lemma_deserialize_entries(stored, shape.drop_last());
        if deserialize_spec(stored, shape) is Ok {
            let rec = deserialize_spec(stored, shape)->Ok_0;
            let pre = shape.drop_last();
            let prerec = deserialize_spec(stored, pre)->Ok_0;
            assert(rec == prerec.push(
                (shape.last().name, project_field(stored, shape.last())->Ok_0),
            ));
            assert forall|k: int| 0 <= k < shape.len() implies project_field(
                stored,
                #[trigger] shape[k],
            ) == Ok::<ValueModel, ErrorModel>(rec[k].1) && rec[k].0 == shape[k].name by {
                if k < shape.len() - 1 {
                    assert(shape[k] == pre[k]);
                    assert(rec[k] == prerec[k]);
                    assert(project_field(stored, pre[k]) == Ok::<ValueModel, ErrorModel>(
                        prerec[k].1,
                    ));
                } else {
                    assert(rec[k] == (shape.last().name, project_field(stored, shape.last())->Ok_0));
                }
            }
        }
    }
}

/// If every declared field before `k` projects and the field at `k` fails,
/// the deserialization fails with exactly that field's error.
pub proof fn lemma_deserialize_first_err(
    stored: Seq<(Seq<char>, StoredModel)>,
    shape: Seq<DeclModel>,
    k: int,
    e: ErrorModel,
)
    requires
        0 <= k < shape.len(),
        project_field(stored, shape[k]) == Err::<ValueModel, ErrorModel>(e),
        forall|j: int| 0 <= j < k ==> project_field(stored, #[trigger] shape[j]) is Ok,
    ensures
        deserialize_spec(stored, shape) == Result::<
            Seq<(Seq<char>, ValueModel)>,
            ErrorModel,
        >::Err(e),
{
    lemma_deserialize_all_ok(stored, shape.take(k));
    assert(forall|j: int| 0 <= j < k ==> #[trigger] shape.take(k)[j] == shape[j]);
    assert(shape.take(k + 1).drop_last() =~= shape.take(k));
    assert(shape.take(k + 1).last() == shape[k]);
    lemma_deserialize_failed_prefix(stored, shape, k + 1, e);
}

/// Deserialization succeeds when every declared field projects.
pub proof fn lemma_deserialize_all_ok(
    stored: Seq<(Seq<char>, StoredModel)>,
    shape: Seq<DeclModel>,
)
    requires
        forall|j: int| 0 <= j < shape.len() ==> project_field(stored, #[trigger] shape[j]) is Ok,
    ensures
        deserialize_spec(stored, shape) is Ok,
    decreases shape.len(),
{
    if shape.len() > 0 {
        let pre = shape.drop_last();
        assert(forall|j: int| 0 <= j < pre.len() ==> #[trigger] pre[j] == shape[j]);
        lemma_deserialize_all_ok(stored, pre);
    }
}

/// A typed record: the values bound to each declared field of a shape.
#[derive(Debug)]
pub struct TypedRecord {
    pub values: Vec<(String, FieldValue)>,
}

impl View for TypedRecord {
    type V = Seq<(Seq<char>, ValueModel)>;

    open spec fn view(&self) -> Seq<(Seq<char>, ValueModel)> {
        record_view(self.values@)
    }
}

impl TypedRecord {
    /// The value bound under `name`, if the shape declared such a field.
    pub fn value_of(&self, name: &str) -> (r: Option<FieldValue>)
        ensures
            match r {
                Some(v) => assoc_lookup(self@, name@) == Some(v@),
                None => assoc_lookup(self@, name@) is None,
            },
    {
        let n = self.values.len();
        let mut i: usize = 0;
        while i < n
            invariant
                i <= n,
                n == self.values@.len(),
                self@ == record_view(self.values@),
                forall|j: int| 0 <= j < i ==> (#[trigger] self@[j]).0 != name@,
            decreases n - i,
        {
            if compare_str(&self.values[i].0, name) {
                proof {
                    lemma_assoc_at(self@, name@, i as int);
                }
                return Some(self.values[i].1.clone());
            }
            i = i + 1;
        }
        proof {
            lemma_assoc_none(self@, name@);
        }
        None
    }
}

/// Whether a string equals a string slice, character for character.
fn compare_str(a: &String, b: &str) -> (r: bool)
    ensures
        r == (a@ == b@),
{
    let x = a.as_str();
    let la = x.unicode_len();
    let lb = b.unicode_len();
    if la != lb {
        proof {
            assert(a@ != b@);
        }
        return false;
    }
    let mut i: usize = 0;
    while i < la
        invariant
            i <= la,
            la == a@.len(),
            la == b@.len(),
            x@ == a@,
            forall|j: int| 0 <= j < i ==> a@[j] == b@[j],
        decreases la - i,
    {
        if x.get_char(i) != b.get_char(i) {
            return false;
        }
        i = i + 1;
    }
    proof {
        assert(a@ =~= b@);
    }
    true
}

/// Finds the first surfaced field stored under `name`.
fn lookup_field<'a>(stored: &'a Vec<(String, StoredValue)>, name: &String) -> (r: Option<
    &'a StoredValue,
>)
    ensures
        match r {
            Some(v) => assoc_lookup(stored_view(stored@), name@) == Some(v@),
            None => assoc_lookup(stored_view(stored@), name@) is None,
        },
{
    let n = stored.len();
    let ghost sv = stored_view(stored@);
    let mut i: usize = 0;
    while i < n
        invariant
            i <= n,
            n == stored@.len(),
            sv == stored_view(stored@),
            sv.len() == n,
            forall|j: int| 0 <= j < n ==> #[trigger] sv[j] == (stored@[j].0@, stored@[j].1@),
            forall|j: int| 0 <= j < i ==> (#[trigger] sv[j]).0 != name@,
        decreases n - i,
    {
        if stored[i].0 == *name {
            proof {
                lemma_assoc_at(sv, name@, i as int);
            }
            return Some(&stored[i].1);
        }
        i = i + 1;
    }
    proof {
        lemma_assoc_none(sv, name@);
    }
    None
}

/// Binds one declared field from the surfaced field set.
fn project_one(stored: &Vec<(String, StoredValue)>, d: &FieldDecl) -> (r: Result<
    FieldValue,
    ReconcileError,
>)
    ensures
        match project_field(stored_view(stored@), d@) {
            Ok(v) => r matches Ok(fv) && fv@ == v,
            Err(e) => r matches Err(err) && err@ == e,
        },
{
    let found = lookup_field(stored, &d.name);
    match d.kind {
        FieldKind::IdentityRequired => match found {
            None => Err(ReconcileError::MissingIdentityField { field: d.name.clone() }),
            Some(StoredValue::Text(s)) => Ok(FieldValue::Text(s.clone())),
            Some(StoredValue::Int(_)) => Err(
                ReconcileError::TypeMismatch { field: d.name.clone() },
            ),
        },
        FieldKind::IdentityOptional => match found {
            None => Ok(FieldValue::OptText(None)),
            Some(StoredValue::Text(s)) => Ok(FieldValue::OptText(Some(s.clone()))),
            Some(StoredValue::Int(_)) => Err(
                ReconcileError::TypeMismatch { field: d.name.clone() },
            ),
        },
        FieldKind::PlainText => match found {
            Some(StoredValue::Text(s)) => Ok(FieldValue::Text(s.clone())),
            _ => Err(ReconcileError::TypeMismatch { field: d.name.clone() }),
        },
        FieldKind::PlainInt => match found {
            Some(StoredValue::Int(n)) => Ok(FieldValue::Int(*n)),
            _ => Err(ReconcileError::TypeMismatch { field: d.name.clone() }),
        },
    }
}

/// Deserializes the surfaced field set into the declared shape.
///
/// Binds every declared field in order; the first failing field aborts
/// with its typed error, never coerced into a default.
pub fn deserialize(stored: &Vec<(String, StoredValue)>, shape: &Projection) -> (r: Result<
    TypedRecord,
    ReconcileError,
>)
    ensures
        match deserialize_spec(stored_view(stored@), shape@) {
            Ok(m) => r matches Ok(t) && t@ == m,
            Err(e) => r matches Err(err) && err@ == e,
        },
{
    let ghost sv = stored_view(stored@);
    let n = shape.len();
    let mut values: Vec<(String, FieldValue)> = Vec::new();
    proof {
        assert(shape@.take(0) =~= Seq::<DeclModel>::empty());
        assert(record_view(values@) =~= Seq::<(Seq<char>, ValueModel)>::empty());
    }
    let mut k: usize = 0;
    while k < n
        invariant
            k <= n,
            n == shape@.len(),
            sv == stored_view(stored@),
            deserialize_spec(sv, shape@.take(k as int)) == Ok::<
                Seq<(Seq<char>, ValueModel)>,
                ErrorModel,
            >(record_view(values@)),
        decreases n - k,
    {
        let d = shape.field(k);
        proof {
            assert(shape@.take(k + 1).drop_last() =~= shape@.take(k as int));
            assert(shape@.take(k + 1).last() == shape@[k as int]);
        }
        match project_one(stored, d) {
            Ok(v) => {
                let ghost old_vals = values@;
                let ghost vm = v@;
                values.push((d.name.clone(), v));
                proof {
                    assert(values@ == old_vals.push((values@.last().0, values@.last().1)));
                    assert(values@.last().0@ == shape@[k as int].name);
                    assert(values@.last().1@ == vm);
                    assert(record_view(values@) =~= record_view(old_vals).push(
                        (shape@[k as int].name, vm),
                    ));
                }
            },
            Err(err) => {
                proof {
                    lemma_deserialize_failed_prefix(sv, shape@, k + 1, err@);
                }
                return Err(err);
            },
        }
        k = k + 1;
    }
    proof {
        assert(shape@.take(n as int) =~= shape@);
    }
    Ok(TypedRecord { values })
}

} // verus!
