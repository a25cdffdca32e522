//! Composite record identifiers and their canonical textual rendering.
//!
//! An identifier joins a collection name and a per-record key. Its canonical
//! string is `collection:key`; when the key is numeric or structured, the
//! key rendering is wrapped in the reserved glyph pair `⟦`/`⟧`, which are
//! typographically distinct code points and not the ASCII angle brackets,
//! so that the wrapped form cannot collide with user data.

use crate::digits::{
    i64_render, int_seq, is_numeric_key, lemma_int_seq_numeric, numeric_key_val, parse_numeric,
};
use crate::errors::{ErrorModel, ReconcileError};
use vstd::prelude::*;

verus! {

/// A per-record key: textual, numeric, or a structured (compound) rendering.
///
/// Structured keys are carried by their bracket-inner rendering; their
/// internal grammar is left unspecified here.
#[derive(Debug)]
pub enum KeyValue {
    Textual(String),
    Numeric(i64),
    Structured(String),
}

/// The mathematical shape of a `KeyValue`.
pub ghost enum KeyModel {
    Textual(Seq<char>),
    Numeric(int),
    Structured(Seq<char>),
}

impl View for KeyValue {
    type V = KeyModel;

    open spec fn view(&self) -> KeyModel {
        match self {
            KeyValue::Textual(s) => KeyModel::Textual(s@),
            KeyValue::Numeric(n) => KeyModel::Numeric(*n as int),
            KeyValue::Structured(s) => KeyModel::Structured(s@),
        }
    }
}

/// An immutable composite identifier: a collection name plus a key.
#[derive(Debug)]
pub struct IdentifierValue {
    collection: String,
    key: KeyValue,
}

/// The mathematical shape of an `IdentifierValue`.
pub ghost struct IdModel {
    pub collection: Seq<char>,
    pub key: KeyModel,
}

impl View for IdentifierValue {
    type V = IdModel;

    closed spec fn view(&self) -> IdModel {
        IdModel { collection: self.collection@, key: self.key@ }
    }
}

/// Whether the key's rendering is wrapped in the reserved glyph pair.
pub open spec fn key_bracketed(k: KeyModel) -> bool {
    match k {
        KeyModel::Textual(_) => false,
        KeyModel::Numeric(_) => true,
        KeyModel::Structured(_) => true,
    }
}

/// The key rendering without the reserved brackets.
pub open spec fn key_render(k: KeyModel) -> Seq<char> {
    match k {
        KeyModel::Textual(s) => s,
        KeyModel::Numeric(n) => int_seq(n),
        KeyModel::Structured(s) => s,
    }
}

/// The canonical string of an identifier: `collection:key`, the key
/// bracket-wrapped when it is numeric or structured.
pub open spec fn canon_seq(v: IdModel) -> Seq<char> {
    if key_bracketed(v.key) {
        v.collection + seq![':'] + seq!['⟦'] + key_render(v.key) + seq!['⟧']
    } else {
        v.collection + seq![':'] + key_render(v.key)
    }
}

/// A constructible identifier: the collection name carries no separator,
/// a textual key is not itself bracket-wrapped, a numeric key lies in the
/// signed 64-bit range, and a structured rendering is not itself a numeric
/// literal. Exactly these identifiers round-trip through the canonical
/// string.
pub open spec fn id_wf(v: IdModel) -> bool {
    &&& forall|i: int| 0 <= i < v.collection.len() ==> #[trigger] v.collection[i] != ':'
    &&& match v.key {
        KeyModel::Textual(s) => !(s.len() >= 2 && s[0] == '⟦' && s[s.len() - 1] == '⟧'),
        KeyModel::Numeric(n) => i64::MIN <= n <= i64::MAX,
        KeyModel::Structured(s) => !is_numeric_key(s),
    }
}

/// The position of the first separator in `s`, if any.
pub open spec fn first_colon(s: Seq<char>) -> Option<int>
    decreases s.len(),
{
    if s.len() == 0 {
        None
    } else if s[0] == ':' {
        Some(0)
    } else {
        match first_colon(s.skip(1)) {
            None => None,
            Some(i) => Some(i + 1),
        }
    }
}

/// The parse of a canonical string: split at the first separator; a
/// bracket-wrapped remainder is classified numeric when its inner text is a
/// canonical integer literal and structured otherwise; any other remainder
/// is a textual key.
pub open spec fn parse_id(s: Seq<char>) -> Option<IdModel> {
    match first_colon(s) {
        None => None,
        Some(ci) => {
            let collection = s.take(ci);
            let rest = s.skip(ci + 1);
            let key = if rest.len() >= 2 && rest[0] == '⟦' && rest[rest.len() - 1] == '⟧' {
                let inner = rest.subrange(1, rest.len() - 1);
                if is_numeric_key(inner) {
                    KeyModel::Numeric(numeric_key_val(inner))
                } else {
                    KeyModel::Structured(inner)
                }
            } else {
                KeyModel::Textual(rest)
            };
            Some(IdModel { collection, key })
        },
    }
}

proof fn lemma_first_colon_at(s: Seq<char>, i: int)
    requires
        0 <= i < s.len(),
        s[i] == ':',
        forall|j: int| 0 <= j < i ==> #[trigger] s[j] != ':',
    ensures
        first_colon(s) == Some(i),
    decreases i,
{
    if i > 0 {
        let t = s.skip(1);
        assert(forall|j: int| 0 <= j < i - 1 ==> #[trigger] t[j] == s[j + 1]);
        lemma_first_colon_at(t, i - 1);
    }
}

proof fn lemma_first_colon_none(s: Seq<char>)
    requires
        forall|j: int| 0 <= j < s.len() ==> #[trigger] s[j] != ':',
    ensures
        first_colon(s) is None,
    decreases s.len(),
{
    if s.len() > 0 {
        let t = s.skip(1);
        assert(forall|j: int| 0 <= j < t.len() ==> #[trigger] t[j] == s[j + 1]);
        lemma_first_colon_none(t);
    }
}

/// Finds the first separator of `s`.
fn find_colon(s: &str) -> (r: Option<usize>)
    ensures
        match r {
            Some(i) => i < s@.len() && s@[i as int] == ':' && first_colon(s@) == Some(i as int),
            None => first_colon(s@) is None && forall|j: int|
                0 <= j < s@.len() ==> #[trigger] s@[j] != ':',
        },
{
    let len = s.unicode_len();
    let mut i: usize = 0;
    while i < len
        invariant
            i <= len,
            len == s@.len(),
            forall|j: int| 0 <= j < i ==> #[trigger] s@[j] != ':',
        decreases len - i,
    {
        if s.get_char(i) == ':' {
            proof {
                lemma_first_colon_at(s@, i as int);
            }
            return Some(i);
        }
        i = i + 1;
    }
    proof {
        lemma_first_colon_none(s@);
    }
    None
}

impl IdentifierValue {
    /// Builds an identifier from its parts, refusing combinations that
    /// would not survive the canonical round trip.
    pub fn new(collection: String, key: KeyValue) -> (r: Option<IdentifierValue>)
        ensures
            match r {
                Some(v) => id_wf(v@) && v@ == (IdModel { collection: collection@, key: key@ }),
                None => !id_wf(IdModel { collection: collection@, key: key@ }),
            },
    {
        if let Some(ci) = find_colon(collection.as_str()) {
            proof {
                let m = IdModel { collection: collection@, key: key@ };
                assert(m.collection[ci as int] == ':');
                assert(!id_wf(m));
            }
            return None;
        }
        let ok = match &key {
            KeyValue::Textual(t) => {
                let tl = t.as_str().unicode_len();
                if tl >= 2 {
                    !(t.as_str().get_char(0) == '⟦' && t.as_str().get_char(tl - 1) == '⟧')
                } else {
                    true
                }
            },
            KeyValue::Numeric(_) => true,
            KeyValue::Structured(t) => parse_numeric(t.as_str()).is_none(),
        };
        if ok {
            Some(IdentifierValue { collection, key })
        } else {
            None
        }
    }

    /// Splits `raw` at the first separator and classifies the remainder.
    ///
    /// Fails exactly when `raw` carries no separator.
    pub fn parse(raw: &str) -> (r: Result<IdentifierValue, ReconcileError>)
        ensures
            parse_id(raw@) matches Some(m) ==> (r matches Ok(v) && v@ == m),
            parse_id(raw@) is None ==> (r matches Err(e) && e@
                == ErrorModel::MalformedIdentifier),
    {
        let len = raw.unicode_len();
        match find_colon(raw) {
            None => Err(ReconcileError::MalformedIdentifier),
            Some(ci) => {
                let collection = raw.substring_char(0, ci).to_owned();
                proof {
                    assert(collection@ =~= raw@.take(ci as int));
                }
                let ghost rest = raw@.skip(ci + 1);
                if len - ci - 1 >= 2 && raw.get_char(ci + 1) == '⟦' && raw.get_char(len - 1)
                    == '⟧' {
                    proof {
                        assert(rest.len() >= 2);
                        assert(rest[0] == raw@[ci + 1]);
                        assert(rest[rest.len() - 1] == raw@[len - 1]);
                    }
                    let inner = raw.substring_char(ci + 2, len - 1);
                    proof {
                        assert(inner@ =~= rest.subrange(1, rest.len() - 1));
                    }
                    match parse_numeric(inner) {
                        Some(n) => Ok(
                            IdentifierValue { collection, key: KeyValue::Numeric(n) },
                        ),
                        None => Ok(
                            IdentifierValue {
                                collection,
                                key: KeyValue::Structured(inner.to_owned()),
                            },
                        ),
                    }
                } else {
                    proof {
                        assert(!(rest.len() >= 2 && rest[0] == '⟦' && rest[rest.len() - 1]
                            == '⟧')) by {
                            if rest.len() >= 2 {
                                assert(rest[0] == raw@[ci + 1]);
                                assert(rest[rest.len() - 1] == raw@[len - 1]);
                            }
                        }
                    }
                    let key = raw.substring_char(ci + 1, len).to_owned();
                    proof {
                        assert(key@ =~= rest);
                    }
                    Ok(IdentifierValue { collection, key: KeyValue::Textual(key) })
                }
            },
        }
    }

    /// The canonical string: inverse of `parse` on constructible values.
    pub fn canonical_string(&self) -> (s: String)
        ensures
            s@ == canon_seq(self@),
    {
        proof {
            reveal_strlit(":");
            reveal_strlit("⟦");
            reveal_strlit("⟧");
        }
        let mut s = self.collection.clone();
        s.append(":");
        match &self.key {
            KeyValue::Textual(t) => {
                s.append(t.as_str());
            },
            KeyValue::Numeric(n) => {
                s.append("⟦");
                let d = i64_render(*n);
                s.append(d.as_str());
                s.append("⟧");
            },
            KeyValue::Structured(t) => {
                s.append("⟦");
                s.append(t.as_str());
                s.append("⟧");
            },
        }
        proof {
            assert(s@ =~= canon_seq(self@));
        }
        s
    }

    /// The collection name.
    pub fn collection(&self) -> (s: String)
        ensures
            s@ == self@.collection,
    {
        self.collection.clone()
    }

    /// The key rendering without the reserved brackets, whatever the key's
    /// classification.
    pub fn raw_key(&self) -> (s: String)
        ensures
            s@ == key_render(self@.key),
    {
        match &self.key {
            KeyValue::Textual(t) => t.clone(),
            KeyValue::Numeric(n) => i64_render(*n),
            KeyValue::Structured(t) => t.clone(),
        }
    }
}

/// The capability surface of any identifier-bearing type: the combined
/// canonical string, the bare key, and the collection name.
pub trait IdTraits {
    /// The identifier this value bears.
    spec fn id_model(&self) -> IdModel;

    /// The combined canonical string, `collection:key` with the reserved
    /// brackets around non-textual keys.
    fn get_tbl_id(&self) -> (r: String)
        ensures
            r@ == canon_seq(self.id_model()),
    ;

    /// The bare key rendering, without the reserved brackets.
    fn get_id(&self) -> (r: String)
        ensures
            r@ == key_render(self.id_model().key),
    ;

    /// The collection name.
    fn get_tbl(&self) -> (r: String)
        ensures
            r@ == self.id_model().collection,
    ;
}

impl IdTraits for IdentifierValue {
    open spec fn id_model(&self) -> IdModel {
        self@
    }

    fn get_tbl_id(&self) -> (r: String) {
        self.canonical_string()
    }

    fn get_id(&self) -> (r: String) {
        self.raw_key()
    }

    fn get_tbl(&self) -> (r: String) {
        self.collection()
    }
}

impl PartialEq for KeyValue {
    fn eq(&self, other: &Self) -> (r: bool) {
        match (self, other) {
            (KeyValue::Textual(a), KeyValue::Textual(b)) => *a == *b,
            (KeyValue::Numeric(a), KeyValue::Numeric(b)) => *a == *b,
            (KeyValue::Structured(a), KeyValue::Structured(b)) => *a == *b,
            _ => false,
        }
    }
}

impl vstd::std_specs::cmp::PartialEqSpecImpl for KeyValue {
    open spec fn obeys_eq_spec() -> bool {
        true
    }

    open spec fn eq_spec(&self, other: &Self) -> bool {
        self@ == other@
    }
}

impl PartialEq for IdentifierValue {
    fn eq(&self, other: &Self) -> (r: bool) {
        self.collection == other.collection && self.key == other.key
    }
}

impl vstd::std_specs::cmp::PartialEqSpecImpl for IdentifierValue {
    open spec fn obeys_eq_spec() -> bool {
        true
    }

    open spec fn eq_spec(&self, other: &Self) -> bool {
        self@ == other@
    }
}

impl Clone for KeyValue {
    fn clone(&self) -> (r: Self)
        ensures
            r@ == self@,
    {
        match self {
            KeyValue::Textual(s) => KeyValue::Textual(s.clone()),
            KeyValue::Numeric(n) => KeyValue::Numeric(*n),
            KeyValue::Structured(s) => KeyValue::Structured(s.clone()),
        }
    }
}

impl Clone for IdentifierValue {
    fn clone(&self) -> (r: Self)
        ensures
            r@ == self@,
    {
        IdentifierValue { collection: self.collection.clone(), key: self.key.clone() }
    }
}

/// Round-trip law: parsing the canonical string of any constructible
/// identifier yields that identifier again.
pub proof fn lemma_parse_canonical_round_trip(v: IdModel)
    requires
        id_wf(v),
    ensures
        parse_id(canon_seq(v)) == Some(v),
{
    let s = canon_seq(v);
    let cl = v.collection.len() as int;
    assert(s[cl] == ':');
    assert(forall|j: int| 0 <= j < cl ==> #[trigger] s[j] != ':') by {
        assert(forall|j: int| 0 <= j < cl ==> #[trigger] s[j] == v.collection[j]);
    }
    lemma_first_colon_at(s, cl);
    assert(s.take(cl) =~= v.collection);
    let rest = s.skip(cl + 1);
    match v.key {
        KeyModel::Textual(t) => {
            assert(rest =~= t);
        },
        KeyModel::Numeric(n) => {
            lemma_int_seq_numeric(n);
            assert(rest =~= seq!['⟦'] + int_seq(n) + seq!['⟧']);
            assert(rest[0] == '⟦');
            assert(rest[rest.len() - 1] == '⟧');
            assert(rest.subrange(1, rest.len() - 1) =~= int_seq(n));
        },
        KeyModel::Structured(t) => {
            assert(rest =~= seq!['⟦'] + t + seq!['⟧']);
            assert(rest[0] == '⟦');
            assert(rest[rest.len() - 1] == '⟧');
            assert(rest.subrange(1, rest.len() - 1) =~= t);
        },
    }
}

/// Bracket law: for numeric and structured keys the canonical string wraps
/// the rendered key in the reserved glyph pair, immediately on each side,
/// and that pair is not the ASCII angle brackets.
pub proof fn lemma_bracket_glyphs(v: IdModel)
    requires
        key_bracketed(v.key),
    ensures
        canon_seq(v) == v.collection + seq![':'] + seq!['⟦'] + key_render(v.key) + seq!['⟧'],
        canon_seq(v)[v.collection.len() as int + 1] == '⟦',
        canon_seq(v)[canon_seq(v).len() - 1] == '⟧',
        '⟦' != '<' && '⟦' != '>' && '⟧' != '<' && '⟧' != '>',
{
    let s = canon_seq(v);
    assert(s[v.collection.len() as int + 1] == '⟦');
    assert(s[s.len() - 1] == '⟧');
}

} // verus!
