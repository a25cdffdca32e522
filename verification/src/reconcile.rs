//! The two retrieval paths and the reconciliation of their field surfacing
//! against declared shapes.
//!
//! A whole-collection fetch performs a direct structural deserialization and
//! never surfaces a computed identity alias. A query surfaces it exactly
//! when the query text requests the identity derivation under an alias; a
//! query that omits it behaves like the whole-collection path.

use crate::errors::{ErrorModel, ReconcileError};
use crate::identifier::{key_render, IdModel, IdentifierValue};
use crate::projection::{
    assoc_lookup, deserialize, deserialize_spec, lemma_assoc_none, lemma_deserialize_entries,
    lemma_deserialize_first_err, project_field, stored_view, DeclModel, FieldKind, Projection,
    StoredModel, StoredValue, TypedRecord, ValueModel,
};
use vstd::prelude::*;

verus! {

/// One retrieval path: the whole-collection fetch, or a query that either
/// requests the identity derivation under an alias or omits it.
#[derive(Debug)]
pub enum RetrievalPath {
    WholeCollection,
    Query { identity_alias: Option<String> },
}

/// The mathematical shape of a `RetrievalPath`.
pub ghost enum PathModel {
    WholeCollection,
    Query(Option<Seq<char>>),
}

impl View for RetrievalPath {
    type V = PathModel;

    open spec fn view(&self) -> PathModel {
        match self {
            RetrievalPath::WholeCollection => PathModel::WholeCollection,
            RetrievalPath::Query { identity_alias } => match identity_alias {
                Some(a) => PathModel::Query(Some(a@)),
                None => PathModel::Query(None),
            },
        }
    }
}

impl PartialEq for RetrievalPath {
    fn eq(&self, other: &Self) -> (r: bool) {
        match (self, other) {
            (RetrievalPath::WholeCollection, RetrievalPath::WholeCollection) => true,
            (
                RetrievalPath::Query { identity_alias: a },
                RetrievalPath::Query { identity_alias: b },
            ) => match (a, b) {
                (Some(x), Some(y)) => *x == *y,
                (None, None) => true,
                _ => false,
            },
            _ => false,
        }
    }
}

impl vstd::std_specs::cmp::PartialEqSpecImpl for RetrievalPath {
    open spec fn obeys_eq_spec() -> bool {
        true
    }

    open spec fn eq_spec(&self, other: &Self) -> bool {
        self@ == other@
    }
}

impl Clone for RetrievalPath {
    fn clone(&self) -> (r: Self)
        ensures
            r@ == self@,
    {
        match self {
            RetrievalPath::WholeCollection => RetrievalPath::WholeCollection,
            RetrievalPath::Query { identity_alias } => match identity_alias {
                Some(a) => RetrievalPath::Query { identity_alias: Some(a.clone()) },
                None => RetrievalPath::Query { identity_alias: None },
            },
        }
    }
}

/// Whether the path surfaces the identity derivation.
pub open spec fn surfaces_identity(p: PathModel) -> bool {
    match p {
        PathModel::Query(Some(_)) => true,
        _ => false,
    }
}

/// A record as the engine holds it: its true identifier and its plain
/// stored fields.
#[derive(Debug)]
pub struct StoredRecord {
    pub id: IdentifierValue,
    pub fields: Vec<(String, StoredValue)>,
}

/// The mathematical shape of a `StoredRecord`.
pub ghost struct RecordModel {
    pub id: IdModel,
    pub fields: Seq<(Seq<char>, StoredModel)>,
}

impl View for StoredRecord {
    type V = RecordModel;

    open spec fn view(&self) -> RecordModel {
        RecordModel { id: self.id@, fields: stored_view(self.fields@) }
    }
}

/// The field set a path surfaces for one record: the stored fields, plus
/// the bare key under the alias exactly when the path requests the
/// derivation.
pub open spec fn surfaced_fields(r: RecordModel, p: PathModel) -> Seq<(Seq<char>, StoredModel)> {
    match p {
        PathModel::WholeCollection => r.fields,
        PathModel::Query(None) => r.fields,
        PathModel::Query(Some(alias)) => r.fields.push(
            (alias, StoredModel::Text(key_render(r.id.key))),
        ),
    }
}

/// The deserialization of one record through one path into one shape.
pub open spec fn project_spec(r: RecordModel, p: PathModel, shape: Seq<DeclModel>) -> Result<
    Seq<(Seq<char>, ValueModel)>,
    ErrorModel,
> {
    deserialize_spec(surfaced_fields(r, p), shape)
}

/// Materialises the field set that `p` surfaces for `r`.
fn surface_record(r: &StoredRecord, p: &RetrievalPath) -> (out: Vec<(String, StoredValue)>)
    ensures
        stored_view(out@) == surfaced_fields(r@, p@),
{
    let mut out: Vec<(String, StoredValue)> = Vec::new();
    let n = r.fields.len();
    let mut i: usize = 0;
    while i < n
        invariant
            i <= n,
            n == r.fields@.len(),
            out@.len() == i,
            forall|j: int|
                0 <= j < i ==> (#[trigger] out@[j]).0@ == r.fields@[j].0@ && out@[j].1@
                    == r.fields@[j].1@,
        decreases n - i,
    {
        out.push((r.fields[i].0.clone(), r.fields[i].1.clone()));
        i = i + 1;
    }
    proof {
        assert(stored_view(out@) =~= stored_view(r.fields@));
    }
    match p {
        RetrievalPath::WholeCollection => out,
        RetrievalPath::Query { identity_alias: None } => out,
        RetrievalPath::Query { identity_alias: Some(alias) } => {
            let key = r.id.raw_key();
            out.push((alias.clone(), StoredValue::Text(key)));
            proof {
                assert(stored_view(out@) =~= stored_view(out@.drop_last()).push(
                    (out@.last().0@, out@.last().1@),
                ));
            }
            out
        },
    }
}

/// Retrieves one record through one path and deserializes it into the
/// declared shape.
pub fn project_record(r: &StoredRecord, p: &RetrievalPath, shape: &Projection) -> (res: Result<
    TypedRecord,
    ReconcileError,
>)
    ensures
        match project_spec(r@, p@, shape@) {
            Ok(m) => res matches Ok(t) && t@ == m,
            Err(e) => res matches Err(err) && err@ == e,
        },
{
    let surfaced = surface_record(r, p);
    deserialize(&surfaced, shape)
}

proof fn lemma_assoc_push_same<T>(fields: Seq<(Seq<char>, T)>, name: Seq<char>, v: T)
    requires
        assoc_lookup(fields, name) is None,
    ensures
        assoc_lookup(fields.push((name, v)), name) == Some(v),
    decreases fields.len(),
{
    if fields.len() == 0 {
        assert(fields.push((name, v))[0] == (name, v));
    } else {
        let t = fields.skip(1);
        assert(fields.push((name, v)).skip(1) =~= t.push((name, v)));
        lemma_assoc_push_same(t, name, v);
    }
}

proof fn lemma_assoc_push_other<T>(fields: Seq<(Seq<char>, T)>, x: (Seq<char>, T), name: Seq<char>)
    requires
        x.0 != name,
    ensures
        assoc_lookup(fields.push(x), name) == assoc_lookup(fields, name),
    decreases fields.len(),
{
    if fields.len() == 0 {
        let pushed = fields.push(x);
        assert(forall|j: int| 0 <= j < pushed.len() ==> (#[trigger] pushed[j]).0 != name);
        lemma_assoc_none(pushed, name);
    } else {
        let t = fields.skip(1);
        assert(fields.push(x)[0] == fields[0]);
        assert(fields.push(x).skip(1) =~= t.push(x));
        lemma_assoc_push_other(t, x, name);
    }
}

/// Reconciliation law, unrequested derivation: when the path does not
/// surface the identity derivation and the stored fields hold nothing under
/// the declared name, an identity-optional field binds `None` — absence
/// alone never fails it — and a successful deserialization shows exactly
/// that `None`.
pub proof fn lemma_unrequested_identity_optional(
    r: RecordModel,
    p: PathModel,
    shape: Seq<DeclModel>,
    k: int,
)
    requires
        !surfaces_identity(p),
        0 <= k < shape.len(),
        shape[k].kind == FieldKind::IdentityOptional,
        assoc_lookup(r.fields, shape[k].name) is None,
    ensures
        project_field(surfaced_fields(r, p), shape[k]) == Ok::<ValueModel, ErrorModel>(
            ValueModel::OptText(None),
        ),
        project_spec(r, p, shape) matches Ok(rec) ==> rec[k].1 == ValueModel::OptText(None),
{
    assert(surfaced_fields(r, p) == r.fields);
    lemma_deserialize_entries(surfaced_fields(r, p), shape);
}

/// Reconciliation law, unrequested derivation: an identity-required field
/// fails deterministically with `MissingIdentityField` when the derivation
/// was not requested and every field declared before it projects.
pub proof fn lemma_unrequested_identity_required(
    r: RecordModel,
    p: PathModel,
    shape: Seq<DeclModel>,
    k: int,
)
    requires
        !surfaces_identity(p),
        0 <= k < shape.len(),
        shape[k].kind == FieldKind::IdentityRequired,
        assoc_lookup(r.fields, shape[k].name) is None,
        forall|j: int|
            0 <= j < k ==> project_field(surfaced_fields(r, p), #[trigger] shape[j]) is Ok,
    ensures
        project_spec(r, p, shape) == Result::<
            Seq<(Seq<char>, ValueModel)>,
            ErrorModel,
        >::Err(ErrorModel::MissingIdentityField(shape[k].name)),
{
    assert(surfaced_fields(r, p) == r.fields);
    lemma_deserialize_first_err(
        surfaced_fields(r, p),
        shape,
        k,
        ErrorModel::MissingIdentityField(shape[k].name),
    );
}

/// Reconciliation law, requested derivation: a query that requests the
/// identity derivation under the declared name surfaces the bare key there,
/// for the optional and for the required marking alike.
pub proof fn lemma_requested_identity(r: RecordModel, shape: Seq<DeclModel>, k: int)
    requires
        0 <= k < shape.len(),
        assoc_lookup(r.fields, shape[k].name) is None,
    ensures
        shape[k].kind == FieldKind::IdentityOptional ==> project_field(
            surfaced_fields(r, PathModel::Query(Some(shape[k].name))),
            shape[k],
        ) == Ok::<ValueModel, ErrorModel>(
            ValueModel::OptText(Some(key_render(r.id.key))),
        ),
        shape[k].kind == FieldKind::IdentityRequired ==> project_field(
            surfaced_fields(r, PathModel::Query(Some(shape[k].name))),
            shape[k],
        ) == Ok::<ValueModel, ErrorModel>(ValueModel::Text(key_render(r.id.key))),
{
    lemma_assoc_push_same(r.fields, shape[k].name, StoredModel::Text(key_render(r.id.key)));
}

/// Reconciliation law, identity-absent shapes: a shape none of whose
/// declared names is the requested alias deserializes identically through
/// the requesting query and through the whole-collection fetch — the
/// surfaced derivation is silently dropped.
pub proof fn lemma_paths_agree_without_alias(
    r: RecordModel,
    alias: Seq<char>,
    shape: Seq<DeclModel>,
)
    requires
        forall|j: int| 0 <= j < shape.len() ==> (#[trigger] shape[j]).name != alias,
    ensures
        project_spec(r, PathModel::Query(Some(alias)), shape) == project_spec(
            r,
            PathModel::WholeCollection,
            shape,
        ),
    decreases shape.len(),
{
    let sq = surfaced_fields(r, PathModel::Query(Some(alias)));
    let sw = r.fields;
    if shape.len() > 0 {
        let pre = shape.drop_last();
        assert(forall|j: int| 0 <= j < pre.len() ==> #[trigger] pre[j] == shape[j]);
        lemma_paths_agree_without_alias(r, alias, pre);
        let d = shape.last();
        assert(d == shape[shape.len() - 1]);
        lemma_assoc_push_other(
            r.fields,
            (alias, StoredModel::Text(key_render(r.id.key))),
            d.name,
        );
        assert(project_field(sq, d) == project_field(sw, d));
    }
}

/// The models of a sequence of stored records.
pub open spec fn records_view(s: Seq<StoredRecord>) -> Seq<RecordModel> {
    s.map_values(|r: StoredRecord| r@)
}

/// The models of a sequence of shapes.
pub open spec fn shapes_view(s: Seq<Projection>) -> Seq<Seq<DeclModel>> {
    s.map_values(|p: Projection| p@)
}

/// The models of a sequence of typed records.
pub open spec fn rows_view(s: Seq<TypedRecord>) -> Seq<Seq<(Seq<char>, ValueModel)>> {
    s.map_values(|t: TypedRecord| t@)
}

/// The outcome of evaluating one (path, shape) pair over a collection:
/// every record deserialized, or the first typed failure.
#[derive(Debug)]
pub enum Outcome {
    Rows(Vec<TypedRecord>),
    Failed(ReconcileError),
}

/// The mathematical shape of an `Outcome`.
pub ghost enum OutcomeModel {
    Rows(Seq<Seq<(Seq<char>, ValueModel)>>),
    Failed(ErrorModel),
}

impl View for Outcome {
    type V = OutcomeModel;

    open spec fn view(&self) -> OutcomeModel {
        match self {
            Outcome::Rows(rs) => OutcomeModel::Rows(rows_view(rs@)),
            Outcome::Failed(e) => OutcomeModel::Failed(e@),
        }
    }
}

impl PartialEq for TypedRecord {
    fn eq(&self, other: &Self) -> (r: bool) {
        let n = self.values.len();
        if n != other.values.len() {
            proof {
                assert(self@.len() != other@.len());
            }
            return false;
        }
        let mut i: usize = 0;
        while i < n
            invariant
                i <= n,
                n == self.values@.len(),
                n == other.values@.len(),
                forall|j: int| 0 <= j < i ==> #[trigger] self@[j] == other@[j],
            decreases n - i,
        {
            if !(self.values[i].0 == other.values[i].0) {
                proof {
                    assert(self@[i as int] != other@[i as int]);
                }
                return false;
            }
            if !(self.values[i].1 == other.values[i].1) {
                proof {
                    assert(self@[i as int] != other@[i as int]);
                }
                return false;
            }
            proof {
                assert(self@[i as int] == other@[i as int]);
            }
            i = i + 1;
        }
        proof {
            assert(self@ =~= other@);
        }
        true
    }
}

impl vstd::std_specs::cmp::PartialEqSpecImpl for TypedRecord {
    open spec fn obeys_eq_spec() -> bool {
        true
    }

    open spec fn eq_spec(&self, other: &Self) -> bool {
        self@ == other@
    }
}

/// Whether two row lists deserialized to the same values.
fn typed_records_eq(a: &Vec<TypedRecord>, b: &Vec<TypedRecord>) -> (r: bool)
    ensures
        r == (rows_view(a@) == rows_view(b@)),
{
    let n = a.len();
    if n != b.len() {
        proof {
            assert(rows_view(a@).len() != rows_view(b@).len());
        }
        return false;
    }
    let mut i: usize = 0;
    while i < n
        invariant
            i <= n,
            n == a@.len(),
            n == b@.len(),
            forall|j: int| 0 <= j < i ==> #[trigger] rows_view(a@)[j] == rows_view(b@)[j],
        decreases n - i,
    {
        if !(a[i] == b[i]) {
            proof {
                assert(rows_view(a@)[i as int] == a@[i as int]@);
                assert(rows_view(b@)[i as int] == b@[i as int]@);
            }
            return false;
        }
        proof {
            assert(rows_view(a@)[i as int] == rows_view(b@)[i as int]);
        }
        i = i + 1;
    }
    proof {
        assert(rows_view(a@) =~= rows_view(b@));
    }
    true
}

impl PartialEq for Outcome {
    fn eq(&self, other: &Self) -> (r: bool) {
        match (self, other) {
            (Outcome::Rows(a), Outcome::Rows(b)) => typed_records_eq(a, b),
            (Outcome::Failed(p), Outcome::Failed(q)) => *p == *q,
            _ => false,
        }
    }
}

impl vstd::std_specs::cmp::PartialEqSpecImpl for Outcome {
    open spec fn obeys_eq_spec() -> bool {
        true
    }

    open spec fn eq_spec(&self, other: &Self) -> bool {
        self@ == other@
    }
}

/// The evaluation of one (path, shape) pair over a collection's records,
/// in storage order: the first failing record aborts this step with its
/// typed error; the other (path, shape) steps are unaffected.
pub open spec fn evaluate_spec(
    records: Seq<RecordModel>,
    p: PathModel,
    shape: Seq<DeclModel>,
) -> OutcomeModel
    decreases records.len(),
{
    if records.len() == 0 {
        OutcomeModel::Rows(Seq::empty())
    } else {
        match evaluate_spec(records.drop_last(), p, shape) {
            OutcomeModel::Failed(e) => OutcomeModel::Failed(e),
            OutcomeModel::Rows(rs) => match project_spec(records.last(), p, shape) {
                Err(e) => OutcomeModel::Failed(e),
                Ok(rec) => OutcomeModel::Rows(rs.push(rec)),
            },
        }
    }
}

proof fn lemma_evaluate_failed_prefix(
    records: Seq<RecordModel>,
    p: PathModel,
    shape: Seq<DeclModel>,
    k: int,
    e: ErrorModel,
)
    requires
        0 <= k <= records.len(),
        evaluate_spec(records.take(k), p, shape) == OutcomeModel::Failed(e),
    ensures
        evaluate_spec(records, p, shape) == OutcomeModel::Failed(e),
    decreases records.len() - k,
{
    if k == records.len() {
        assert(records.take(k) =~= records);
    } else {
        assert(records.take(k + 1).drop_last() =~= records.take(k));
        lemma_evaluate_failed_prefix(records, p, shape, k + 1, e);
    }
}

/// Result-set law: when every record deserializes, the evaluation yields
/// exactly one row per stored record, in storage iteration order.
pub proof fn lemma_evaluate_cardinality(
    records: Seq<RecordModel>,
    p: PathModel,
    shape: Seq<DeclModel>,
)
    requires
        forall|i: int|
            0 <= i < records.len() ==> project_spec(#[trigger] records[i], p, shape) is Ok,
    ensures
        evaluate_spec(records, p, shape) matches OutcomeModel::Rows(rows) && rows.len()
            == records.len() && forall|i: int|
            0 <= i < records.len() ==> #[trigger] rows[i] == project_spec(
                records[i],
                p,
                shape,
            )->Ok_0,
    decreases records.len(),
{
    if records.len() > 0 {
        let pre = records.drop_last();
        assert(forall|i: int| 0 <= i < pre.len() ==> #[trigger] pre[i] == records[i]);
        lemma_evaluate_cardinality(pre, p, shape);
        let prerows = evaluate_spec(pre, p, shape)->Rows_0;
        let rows = evaluate_spec(records, p, shape)->Rows_0;
        assert(records.last() == records[records.len() - 1]);
        assert(rows == prerows.push(project_spec(records.last(), p, shape)->Ok_0));
        assert(forall|i: int| 0 <= i < pre.len() ==> #[trigger] rows[i] == prerows[i]);
    }
}

/// Evaluates one (path, shape) pair over the collection's records.
pub fn evaluate(records: &Vec<StoredRecord>, p: &RetrievalPath, shape: &Projection) -> (o: Outcome)
    ensures
        o@ == evaluate_spec(records_view(records@), p@, shape@),
{
    let ghost rv = records_view(records@);
    let mut rows: Vec<TypedRecord> = Vec::new();
    proof {
        assert(rv.take(0) =~= Seq::<RecordModel>::empty());
        assert(rows_view(rows@) =~= Seq::<Seq<(Seq<char>, ValueModel)>>::empty());
    }
    let n = records.len();
    let mut i: usize = 0;
    while i < n
        invariant
            i <= n,
            n == records@.len(),
            rv == records_view(records@),
            rv.len() == n,
            evaluate_spec(rv.take(i as int), p@, shape@) == OutcomeModel::Rows(
                rows_view(rows@),
            ),
        decreases n - i,
    {
        proof {
            assert(rv.take(i + 1).drop_last() =~= rv.take(i as int));
            assert(rv.take(i + 1).last() == rv[i as int]);
            assert(rv[i as int] == records@[i as int]@);
        }
        match project_record(&records[i], p, shape) {
            Ok(t) => {
                let ghost old_rows = rows@;
                let ghost tm = t@;
                rows.push(t);
                proof {
                    assert(rows_view(rows@) =~= rows_view(old_rows).push(tm));
                }
            },
            Err(e) => {
                proof {
                    lemma_evaluate_failed_prefix(rv, p@, shape@, i + 1, e@);
                }
                return Outcome::Failed(e);
            },
        }
        i = i + 1;
    }
    proof {
        assert(rv.take(n as int) =~= rv);
    }
    Outcome::Rows(rows)
}

/// What one verification step expects of one (path, shape) pair.
#[derive(Debug)]
pub struct Expectation {
    pub shape_index: usize,
    pub path: RetrievalPath,
    pub expected: Outcome,
}

/// The mathematical shape of an `Expectation`.
pub ghost struct ExpectationModel {
    pub shape_index: int,
    pub path: PathModel,
    pub expected: OutcomeModel,
}

impl View for Expectation {
    type V = ExpectationModel;

    open spec fn view(&self) -> ExpectationModel {
        ExpectationModel {
            shape_index: self.shape_index as int,
            path: self.path@,
            expected: self.expected@,
        }
    }
}

/// The models of a sequence of expectations.
pub open spec fn exps_view(s: Seq<Expectation>) -> Seq<ExpectationModel> {
    s.map_values(|e: Expectation| e@)
}

/// One line of a reconciliation report: the evaluated pair, the observed
/// outcome, and whether it matched the expectation.
#[derive(Debug)]
pub struct ReportEntry {
    pub shape_index: usize,
    pub path: RetrievalPath,
    pub observed: Outcome,
    pub passed: bool,
}

/// The mathematical shape of a `ReportEntry`.
pub ghost struct EntryModel {
    pub shape_index: int,
    pub path: PathModel,
    pub observed: OutcomeModel,
    pub passed: bool,
}

impl View for ReportEntry {
    type V = EntryModel;

    open spec fn view(&self) -> EntryModel {
        EntryModel {
            shape_index: self.shape_index as int,
            path: self.path@,
            observed: self.observed@,
            passed: self.passed,
        }
    }
}

impl PartialEq for ReportEntry {
    fn eq(&self, other: &Self) -> (r: bool) {
        self.shape_index == other.shape_index && self.path == other.path && self.observed
            == other.observed && self.passed == other.passed
    }
}

impl vstd::std_specs::cmp::PartialEqSpecImpl for ReportEntry {
    open spec fn obeys_eq_spec() -> bool {
        true
    }

    open spec fn eq_spec(&self, other: &Self) -> bool {
        self@ == other@
    }
}

/// The report of one verification run, one entry per expectation, in order.
#[derive(Debug)]
pub struct ReconciliationReport {
    pub entries: Vec<ReportEntry>,
}

impl View for ReconciliationReport {
    type V = Seq<EntryModel>;

    open spec fn view(&self) -> Seq<EntryModel> {
        self.entries@.map_values(|e: ReportEntry| e@)
    }
}

impl PartialEq for ReconciliationReport {
    fn eq(&self, other: &Self) -> (r: bool) {
        let n = self.entries.len();
        if n != other.entries.len() {
            proof {
                assert(self@.len() != other@.len());
            }
            return false;
        }
        let mut i: usize = 0;
        while i < n
            invariant
                i <= n,
                n == self.entries@.len(),
                n == other.entries@.len(),
                forall|j: int| 0 <= j < i ==> #[trigger] self@[j] == other@[j],
            decreases n - i,
        {
            if !(self.entries[i] == other.entries[i]) {
                proof {
                    assert(self@[i as int] != other@[i as int]);
                }
                return false;
            }
            proof {
                assert(self@[i as int] == other@[i as int]);
            }
            i = i + 1;
        }
        proof {
            assert(self@ =~= other@);
        }
        true
    }
}

impl vstd::std_specs::cmp::PartialEqSpecImpl for ReconciliationReport {
    open spec fn obeys_eq_spec() -> bool {
        true
    }

    open spec fn eq_spec(&self, other: &Self) -> bool {
        self@ == other@
    }
}

/// One report line: the observed outcome of the pair, compared against the
/// expectation.
pub open spec fn entry_spec(
    records: Seq<RecordModel>,
    shapes: Seq<Seq<DeclModel>>,
    e: ExpectationModel,
) -> EntryModel {
    let observed = evaluate_spec(records, e.path, shapes[e.shape_index]);
    EntryModel {
        shape_index: e.shape_index,
        path: e.path,
        observed,
        passed: observed == e.expected,
    }
}

/// The whole report: every expectation evaluated independently, in order.
pub open spec fn verify_spec(
    records: Seq<RecordModel>,
    shapes: Seq<Seq<DeclModel>>,
    exps: Seq<ExpectationModel>,
) -> Seq<EntryModel> {
    exps.map_values(|e: ExpectationModel| entry_spec(records, shapes, e))
}

/// Drives every expected (path, shape) pair over the collection's records
/// and reports, per pair, the observed outcome and whether it matched.
///
/// Every call is self-contained given the collection's current contents:
/// the report is a function of the arguments alone.
pub fn verify(
    records: &Vec<StoredRecord>,
    shapes: &Vec<Projection>,
    expectations: &Vec<Expectation>,
) -> (rep: ReconciliationReport)
    requires
        forall|i: int|
            0 <= i < expectations@.len() ==> (#[trigger] expectations@[i]).shape_index
                < shapes@.len(),
    ensures
        rep@ == verify_spec(records_view(records@), shapes_view(shapes@), exps_view(expectations@)),
{
    let ghost rv = records_view(records@);
    let ghost sv = shapes_view(shapes@);
    let ghost ev = exps_view(expectations@);
    let mut entries: Vec<ReportEntry> = Vec::new();
    let n = expectations.len();
    let mut i: usize = 0;
    while i < n
        invariant
            i <= n,
            n == expectations@.len(),
            rv == records_view(records@),
            sv == shapes_view(shapes@),
            ev == exps_view(expectations@),
            sv.len() == shapes@.len(),
            ev.len() == n,
            forall|j: int|
                0 <= j < n ==> (#[trigger] expectations@[j]).shape_index < shapes@.len(),
            entries@.len() == i,
            forall|j: int| 0 <= j < i ==> (#[trigger] entries@[j])@ == entry_spec(rv, sv, ev[j]),
        decreases n - i,
    {
        let e = &expectations[i];
        let observed = evaluate(records, &e.path, &shapes[e.shape_index]);
        let passed = observed == e.expected;
        proof {
            assert(sv[e.shape_index as int] == shapes@[e.shape_index as int]@);
            assert(ev[i as int] == expectations@[i as int]@);
        }
        let entry = ReportEntry {
            shape_index: e.shape_index,
            path: e.path.clone(),
            observed,
            passed,
        };
        proof {
            assert(entry@ == entry_spec(rv, sv, ev[i as int]));
        }
        entries.push(entry);
        i = i + 1;
    }
    let rep = ReconciliationReport { entries };
    proof {
        assert(rep@ =~= verify_spec(rv, sv, ev));
    }
    rep
}

/// Idempotence law: the report is a function of the collection contents,
/// the shapes, and the expectations alone, so repeated verification runs
/// against an unmodified collection produce identical reports.
pub proof fn lemma_verify_idempotent(
    records: Seq<RecordModel>,
    shapes: Seq<Seq<DeclModel>>,
    exps: Seq<ExpectationModel>,
    r1: Seq<EntryModel>,
    r2: Seq<EntryModel>,
)
    requires
        r1 == verify_spec(records, shapes, exps),
        r2 == verify_spec(records, shapes, exps),
    ensures
        r1 == r2,
{
}

} // verus!
