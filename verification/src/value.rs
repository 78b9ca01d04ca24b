//! The recursive value model of the query language.
//!
//! `Value` is the tagged union every filter operates on; `HashableValue` is
//! its restricted counterpart usable as an object key (no `Function`, and
//! children restricted to hashable values). Objects are order-preserving
//! key/value mappings. Equality of hashable values is per variant, with one
//! deliberate rule: exception equality and hashing consider only the
//! exception's name, never its metadata payload.

use vstd::prelude::*;
use crate::rational::Rational;

verus! {

/// Mathematical model of a `Value`.
pub enum VModel {
    Exception(Seq<char>, Seq<(HModel, VModel)>),
    Null,
    Boolean(bool),
    Number(Rational),
    String(Seq<char>),
    Array(Seq<VModel>),
    Object(Seq<(HModel, VModel)>),
    Function,
}

/// Mathematical model of a `HashableValue`.
pub enum HModel {
    Exception(Seq<char>, Seq<(HModel, VModel)>),
    Null,
    Boolean(bool),
    Number(Rational),
    String(Seq<char>),
    Array(Seq<HModel>),
    Object(Seq<(HModel, HModel)>),
}

/// A value of the query language.
pub enum Value {
    /// A raised condition: a symbolic name and a key/value payload.
    Exception(String, Object),
    Null,
    Boolean(bool),
    Number(Rational),
    String(String),
    Array(Vec<Value>),
    Object(Object),
    /// Placeholder for function values, not yet modeled further.
    Function,
}

/// The restricted value shape usable as an object key.
pub enum HashableValue {
    Exception(String, Object),
    Null,
    Boolean(bool),
    Number(Rational),
    String(String),
    Array(Vec<HashableValue>),
    Object(HashableObject),
}

/// An order-preserving mapping from hashable keys to arbitrary values.
/// Keys are unique (up to hashable equality); insertion of an existing key
/// replaces its value in place, keeping the first-insertion position.
pub struct Object {
    pub entries: Vec<(HashableValue, Value)>,
}

/// An order-preserving mapping from hashable keys to hashable values.
pub struct HashableObject {
    pub entries: Vec<(HashableValue, HashableValue)>,
}

// ---------------------------------------------------------------------------
// Models
// ---------------------------------------------------------------------------

pub open spec fn vmodel(v: Value) -> VModel
    decreases v,
{
    match v {
        Value::Exception(n, m) => VModel::Exception(n@, pairs_model(m.entries@)),
        Value::Null => VModel::Null,
        Value::Boolean(b) => VModel::Boolean(b),
        Value::Number(r) => VModel::Number(r),
        Value::String(s) => VModel::String(s@),
        Value::Array(items) => VModel::Array(vmodels(items@)),
        Value::Object(o) => VModel::Object(pairs_model(o.entries@)),
        Value::Function => VModel::Function,
    }
}

pub open spec fn vmodels(s: Seq<Value>) -> Seq<VModel>
    decreases s,
{
    if s.len() == 0 {
        Seq::empty()
    } else {
        seq![vmodel(s[0])] + vmodels(s.drop_first())
    }
}

pub open spec fn pairs_model(s: Seq<(HashableValue, Value)>) -> Seq<(HModel, VModel)>
    decreases s,
{
    if s.len() == 0 {
        Seq::empty()
    } else {
        seq![(hmodel(s[0].0), vmodel(s[0].1))] + pairs_model(s.drop_first())
    }
}

pub open spec fn hmodel(h: HashableValue) -> HModel
    decreases h,
{
    match h {
        HashableValue::Exception(n, m) => HModel::Exception(n@, pairs_model(m.entries@)),
        HashableValue::Null => HModel::Null,
        HashableValue::Boolean(b) => HModel::Boolean(b),
        HashableValue::Number(r) => HModel::Number(r),
        HashableValue::String(s) => HModel::String(s@),
        HashableValue::Array(items) => HModel::Array(hmodels(items@)),
        HashableValue::Object(o) => HModel::Object(hpairs_model(o.entries@)),
    }
}

pub open spec fn hmodels(s: Seq<HashableValue>) -> Seq<HModel>
    decreases s,
{
    if s.len() == 0 {
        Seq::empty()
    } else {
        seq![hmodel(s[0])] + hmodels(s.drop_first())
    }
}

pub open spec fn hpairs_model(s: Seq<(HashableValue, HashableValue)>) -> Seq<(HModel, HModel)>
    decreases s,
{
    if s.len() == 0 {
        Seq::empty()
    } else {
        seq![(hmodel(s[0].0), hmodel(s[0].1))] + hpairs_model(s.drop_first())
    }
}

impl View for Value {
    type V = VModel;

    open spec fn view(&self) -> VModel {
        vmodel(*self)
    }
}

impl View for HashableValue {
    type V = HModel;

    open spec fn view(&self) -> HModel {
        hmodel(*self)
    }
}

impl View for Object {
    type V = Seq<(HModel, VModel)>;

    open spec fn view(&self) -> Seq<(HModel, VModel)> {
        pairs_model(self.entries@)
    }
}

impl View for HashableObject {
    type V = Seq<(HModel, HModel)>;

    open spec fn view(&self) -> Seq<(HModel, HModel)> {
        hpairs_model(self.entries@)
    }
}

// ---------------------------------------------------------------------------
// Sizes: termination measures for equality and hashing, which ignore
// exception metadata.
// ---------------------------------------------------------------------------

pub open spec fn hsize(h: HModel) -> nat
    decreases h,
{
    match h {
        HModel::Exception(_, _) => 1,
        HModel::Null => 1,
        HModel::Boolean(_) => 1,
        HModel::Number(_) => 1,
        HModel::String(_) => 1,
        HModel::Array(s) => 1 + hsize_seq(s),
        HModel::Object(s) => 1 + hsize_pairs(s),
    }
}

pub open spec fn hsize_seq(s: Seq<HModel>) -> nat
    decreases s,
{
    if s.len() == 0 {
        1
    } else {
        1 + hsize(s[0]) + hsize_seq(s.drop_first())
    }
}

pub open spec fn hsize_pairs(s: Seq<(HModel, HModel)>) -> nat
    decreases s,
{
    if s.len() == 0 {
        1
    } else {
        1 + hsize(s[0].0) + hsize(s[0].1) + hsize_pairs(s.drop_first())
    }
}

// ---------------------------------------------------------------------------
// Hashable equality: per variant; exceptions compare by name only; arrays
// compare pointwise in order; objects compare as sets of pairs, independent
// of insertion order.
// ---------------------------------------------------------------------------

pub open spec fn heq(a: HModel, b: HModel) -> bool
    decreases hsize(a) + hsize(b),
{
    match (a, b) {
        (HModel::Exception(n1, _), HModel::Exception(n2, _)) => n1 == n2,
        (HModel::Null, HModel::Null) => true,
        (HModel::Boolean(x), HModel::Boolean(y)) => x == y,
        (HModel::Number(x), HModel::Number(y)) => x == y,
        (HModel::String(x), HModel::String(y)) => x == y,
        (HModel::Array(x), HModel::Array(y)) => heq_seq(x, y),
        (HModel::Object(x), HModel::Object(y)) => hobj_eq(x, y),
        _ => false,
    }
}

pub open spec fn heq_seq(x: Seq<HModel>, y: Seq<HModel>) -> bool
    decreases hsize_seq(x) + hsize_seq(y),
{
    &&& x.len() == y.len()
    &&& (x.len() == 0 || (heq(x[0], y[0]) && heq_seq(x.drop_first(), y.drop_first())))
}

pub open spec fn hobj_eq(x: Seq<(HModel, HModel)>, y: Seq<(HModel, HModel)>) -> bool
    decreases hsize_pairs(x) + hsize_pairs(y) + 1,
{
    &&& x.len() == y.len()
    &&& hobj_subset(x, y)
    &&& hobj_subset(y, x)
}

pub open spec fn hobj_subset(x: Seq<(HModel, HModel)>, y: Seq<(HModel, HModel)>) -> bool
    decreases hsize_pairs(x) + hsize_pairs(y),
{
    ||| x.len() == 0
    ||| (has_match(x[0].0, x[0].1, y) && hobj_subset(x.drop_first(), y))
}

pub open spec fn has_match(k: HModel, v: HModel, y: Seq<(HModel, HModel)>) -> bool
    decreases hsize(k) + hsize(v) + hsize_pairs(y),
{
    if y.len() == 0 {
        false
    } else {
        ||| (heq(k, y[0].0) && heq(v, y[0].1))
        ||| has_match(k, v, y.drop_first())
    }
}

// ---------------------------------------------------------------------------
// Pointwise characterizations of the recursive equality predicates.
// ---------------------------------------------------------------------------

/// Two sequences are hashable-equal exactly when they have the same length
/// and pairwise hashable-equal elements, in order.
pub proof fn lemma_heq_seq_pointwise(x: Seq<HModel>, y: Seq<HModel>)
    ensures
        heq_seq(x, y) <==> (x.len() == y.len() && forall|i: int|
            0 <= i < x.len() ==> heq(x[i], y[i])),
    decreases x.len(),
{
    if x.len() != 0 && x.len() == y.len() {
        lemma_heq_seq_pointwise(x.drop_first(), y.drop_first());
        assert(forall|i: int| 0 <= i < x.drop_first().len() ==> x.drop_first()[i] == x[i + 1]);
        assert(forall|i: int| 0 <= i < y.drop_first().len() ==> y.drop_first()[i] == y[i + 1]);
        if heq(x[0], y[0]) && (forall|i: int|
            0 <= i < x.drop_first().len() ==> heq(x.drop_first()[i], y.drop_first()[i])) {
            assert forall|i: int| 0 <= i < x.len() implies heq(x[i], y[i]) by {
                if i > 0 {
                    assert(heq(x.drop_first()[i - 1], y.drop_first()[i - 1]));
                }
            }
        }
    }
}

/// `has_match` holds exactly when some pair of `y` matches the given pair.
pub proof fn lemma_has_match_exists(k: HModel, v: HModel, y: Seq<(HModel, HModel)>)
    ensures
        has_match(k, v, y) <==> (exists|j: int|
            0 <= j < y.len() && heq(k, y[j].0) && heq(v, y[j].1)),
    decreases y.len(),
{
    if y.len() != 0 {
        lemma_has_match_exists(k, v, y.drop_first());
        let yd = y.drop_first();
        assert(forall|j: int| 0 <= j < yd.len() ==> yd[j] == y[j + 1]);
        if has_match(k, v, y) {
            if !(heq(k, y[0].0) && heq(v, y[0].1)) {
                let j = choose|j: int| 0 <= j < yd.len() && heq(k, yd[j].0) && heq(v, yd[j].1);
                assert(heq(k, y[j + 1].0) && heq(v, y[j + 1].1));
            }
        }
        if exists|j: int| 0 <= j < y.len() && heq(k, y[j].0) && heq(v, y[j].1) {
            let j = choose|j: int| 0 <= j < y.len() && heq(k, y[j].0) && heq(v, y[j].1);
            if j > 0 {
                assert(heq(k, yd[j - 1].0) && heq(v, yd[j - 1].1));
            }
        }
    }
}

/// `hobj_subset` holds exactly when every pair of `x` has a match in `y`.
pub proof fn lemma_hobj_subset_forall(x: Seq<(HModel, HModel)>, y: Seq<(HModel, HModel)>)
    ensures
        hobj_subset(x, y) <==> (forall|i: int|
            0 <= i < x.len() ==> has_match(x[i].0, x[i].1, y)),
    decreases x.len(),
{
    if x.len() != 0 {
        lemma_hobj_subset_forall(x.drop_first(), y);
        let xd = x.drop_first();
        assert(forall|i: int| 0 <= i < xd.len() ==> xd[i] == x[i + 1]);
        if has_match(x[0].0, x[0].1, y) && (forall|i: int|
            0 <= i < xd.len() ==> has_match(xd[i].0, xd[i].1, y)) {
            assert forall|i: int| 0 <= i < x.len() implies has_match(x[i].0, x[i].1, y) by {
                if i > 0 {
                    assert(has_match(xd[i - 1].0, xd[i - 1].1, y));
                }
            }
        }
    }
}

/// Hashable equality is reflexive.
pub proof fn lemma_heq_reflexive(a: HModel)
    ensures
        heq(a, a),
    decreases hsize(a),
{
    match a {
        HModel::Array(x) => {
            lemma_heq_seq_pointwise(x, x);
            assert forall|i: int| 0 <= i < x.len() implies heq(x[i], x[i]) by {
                lemma_hsize_seq_elem(x, i);
                lemma_heq_reflexive(x[i]);
            }
        },
        HModel::Object(x) => {
            lemma_hobj_subset_forall(x, x);
            assert forall|i: int| 0 <= i < x.len() implies has_match(x[i].0, x[i].1, x) by {
                lemma_hsize_pairs_elem(x, i);
                lemma_heq_reflexive(x[i].0);
                lemma_heq_reflexive(x[i].1);
                lemma_has_match_exists(x[i].0, x[i].1, x);
            }
        },
        _ => {},
    }
}

/// Hashable equality is symmetric.
pub proof fn lemma_heq_symmetric(a: HModel, b: HModel)
    ensures
        heq(a, b) == heq(b, a),
    decreases hsize(a) + hsize(b),
{
    match (a, b) {
        (HModel::Array(x), HModel::Array(y)) => {
            lemma_heq_seq_pointwise(x, y);
            lemma_heq_seq_pointwise(y, x);
            if x.len() == y.len() {
                assert forall|i: int| 0 <= i < x.len() implies (#[trigger] heq(x[i], y[i]))
                    == heq(y[i], x[i]) by {
                    lemma_hsize_seq_elem(x, i);
                    lemma_hsize_seq_elem(y, i);
                    lemma_heq_symmetric(x[i], y[i]);
                }
            }
        },
        (HModel::Object(x), HModel::Object(y)) => {
            // Object equality conjoins both subset directions, so flipping
            // the sides only reorders the same conjuncts.
        },
        _ => {},
    }
}

// ---------------------------------------------------------------------------
// Model bookkeeping lemmas.
// ---------------------------------------------------------------------------

pub proof fn lemma_vmodels_index(s: Seq<Value>)
    ensures
        vmodels(s).len() == s.len(),
        forall|i: int| 0 <= i < s.len() ==> vmodels(s)[i] == vmodel(s[i]),
    decreases s.len(),
{
    if s.len() != 0 {
        lemma_vmodels_index(s.drop_first());
        assert(forall|i: int| 0 <= i < s.drop_first().len() ==> s.drop_first()[i] == s[i + 1]);
    }
}

pub proof fn lemma_hmodels_index(s: Seq<HashableValue>)
    ensures
        hmodels(s).len() == s.len(),
        forall|i: int| 0 <= i < s.len() ==> hmodels(s)[i] == hmodel(s[i]),
    decreases s.len(),
{
    if s.len() != 0 {
        lemma_hmodels_index(s.drop_first());
        assert(forall|i: int| 0 <= i < s.drop_first().len() ==> s.drop_first()[i] == s[i + 1]);
    }
}

pub proof fn lemma_pairs_model_index(s: Seq<(HashableValue, Value)>)
    ensures
        pairs_model(s).len() == s.len(),
        forall|i: int| 0 <= i < s.len() ==> pairs_model(s)[i]
            == (hmodel(s[i].0), vmodel(s[i].1)),
    decreases s.len(),
{
    if s.len() != 0 {
        lemma_pairs_model_index(s.drop_first());
        assert(forall|i: int| 0 <= i < s.drop_first().len() ==> s.drop_first()[i] == s[i + 1]);
    }
}

pub proof fn lemma_hpairs_model_index(s: Seq<(HashableValue, HashableValue)>)
    ensures
        hpairs_model(s).len() == s.len(),
        forall|i: int| 0 <= i < s.len() ==> hpairs_model(s)[i]
            == (hmodel(s[i].0), hmodel(s[i].1)),
    decreases s.len(),
{
    if s.len() != 0 {
        lemma_hpairs_model_index(s.drop_first());
        assert(forall|i: int| 0 <= i < s.drop_first().len() ==> s.drop_first()[i] == s[i + 1]);
    }
}

/// Each element of a sequence weighs strictly less than the sequence.
pub proof fn lemma_hsize_seq_elem(s: Seq<HModel>, i: int)
    requires
        0 <= i < s.len(),
    ensures
        hsize(s[i]) < hsize_seq(s),
    decreases i,
{
    if i == 0 {
    } else {
        lemma_hsize_seq_elem(s.drop_first(), i - 1);
        assert(s.drop_first()[i - 1] == s[i]);
    }
}

/// Each component of a pair sequence weighs strictly less than the sequence.
pub proof fn lemma_hsize_pairs_elem(s: Seq<(HModel, HModel)>, i: int)
    requires
        0 <= i < s.len(),
    ensures
        hsize(s[i].0) < hsize_pairs(s),
        hsize(s[i].1) < hsize_pairs(s),
    decreases i,
{
    if i == 0 {
    } else {
        lemma_hsize_pairs_elem(s.drop_first(), i - 1);
        assert(s.drop_first()[i - 1] == s[i]);
    }
}

// ---------------------------------------------------------------------------
// Executable equality.
// ---------------------------------------------------------------------------

/// Decides hashable equality, per the `heq` specification.
pub fn hashable_eq(a: &HashableValue, b: &HashableValue) -> (r: bool)
    ensures
        r == heq(hmodel(*a), hmodel(*b)),
    decreases hsize(hmodel(*a)) + hsize(hmodel(*b)),
{
    match (a, b) {
        (HashableValue::Exception(n1, _), HashableValue::Exception(n2, _)) => *n1 == *n2,
        (HashableValue::Null, HashableValue::Null) => true,
        (HashableValue::Boolean(x), HashableValue::Boolean(y)) => *x == *y,
        (HashableValue::Number(x), HashableValue::Number(y)) => *x == *y,
        (HashableValue::String(x), HashableValue::String(y)) => *x == *y,
        (HashableValue::Array(x), HashableValue::Array(y)) => {
            proof {
                lemma_hmodels_index(x@);
                lemma_hmodels_index(y@);
                lemma_heq_seq_pointwise(hmodels(x@), hmodels(y@));
            }
            if x.len() != y.len() {
                return false;
            }
            let n = x.len();
            let mut i: usize = 0;
            while i < n
                invariant
                    n == x@.len() == y@.len(),
                    i <= n,
                    hmodel(*a) == HModel::Array(hmodels(x@)),
                    hmodel(*b) == HModel::Array(hmodels(y@)),
                    hmodels(x@).len() == n,
                    hmodels(y@).len() == n,
                    forall|j: int| 0 <= j < n ==> hmodels(x@)[j] == hmodel(x@[j]),
                    forall|j: int| 0 <= j < n ==> hmodels(y@)[j] == hmodel(y@[j]),
                    forall|j: int| 0 <= j < i ==> heq(hmodels(x@)[j], hmodels(y@)[j]),
                decreases n - i,
            {
                proof {
                    lemma_hsize_seq_elem(hmodels(x@), i as int);
                    lemma_hsize_seq_elem(hmodels(y@), i as int);
                }
                if !hashable_eq(&x[i], &y[i]) {
                    proof {
                        lemma_heq_seq_pointwise(hmodels(x@), hmodels(y@));
                    }
                    return false;
                }
                i += 1;
            }
            proof {
                lemma_heq_seq_pointwise(hmodels(x@), hmodels(y@));
            }
            true
        },
        (HashableValue::Object(x), HashableValue::Object(y)) => {
            proof {
                lemma_hpairs_model_index(x.entries@);
                lemma_hpairs_model_index(y.entries@);
            }
            if x.entries.len() != y.entries.len() {
                return false;
            }
            let fwd = hobj_subset_exec(&x.entries, &y.entries);
            if !fwd {
                return false;
            }
            hobj_subset_exec(&y.entries, &x.entries)
        },
        _ => false,
    }
}

/// Checks that every pair of `x` has a hashable-equal match in `y`.
fn hobj_subset_exec(
    x: &Vec<(HashableValue, HashableValue)>,
    y: &Vec<(HashableValue, HashableValue)>,
) -> (r: bool)
    ensures
        r == hobj_subset(hpairs_model(x@), hpairs_model(y@)),
    decreases hsize_pairs(hpairs_model(x@)) + hsize_pairs(hpairs_model(y@)),
{
    let xm = Ghost(hpairs_model(x@));
    let ym = Ghost(hpairs_model(y@));
    proof {
        lemma_hpairs_model_index(x@);
        lemma_hpairs_model_index(y@);
        lemma_hobj_subset_forall(xm@, ym@);
    }
    let n = x.len();
    let mut i: usize = 0;
    while i < n
        invariant
            n == x@.len(),
            i <= n,
            xm@ == hpairs_model(x@),
            ym@ == hpairs_model(y@),
            xm@.len() == x@.len(),
            ym@.len() == y@.len(),
            forall|ii: int| 0 <= ii < x@.len() ==> xm@[ii] == (hmodel(x@[ii].0), hmodel(x@[ii].1)),
            forall|jj: int| 0 <= jj < y@.len() ==> ym@[jj] == (hmodel(y@[jj].0), hmodel(y@[jj].1)),
            forall|ii: int| 0 <= ii < i ==> has_match(xm@[ii].0, xm@[ii].1, ym@),
        decreases n - i,
    {
        proof {
            lemma_has_match_exists(xm@[i as int].0, xm@[i as int].1, ym@);
        }
        let m = y.len();
        let mut j: usize = 0;
        let mut found = false;
        while j < m && !found
            invariant
                m == y@.len(),
                j <= m,
                i < x@.len(),
                xm@ == hpairs_model(x@),
                ym@ == hpairs_model(y@),
                xm@.len() == x@.len(),
                ym@.len() == y@.len(),
                forall|ii: int| 0 <= ii < x@.len() ==> xm@[ii] == (hmodel(x@[ii].0), hmodel(x@[ii].1)),
                forall|jj: int| 0 <= jj < y@.len() ==> ym@[jj] == (hmodel(y@[jj].0), hmodel(y@[jj].1)),
                found ==> (exists|jj: int|
                    0 <= jj < ym@.len() && heq(xm@[i as int].0, ym@[jj].0) && heq(xm@[i as int].1, ym@[jj].1)),
                !found ==> (forall|jj: int|
                    0 <= jj < j ==> !(heq(xm@[i as int].0, ym@[jj].0) && heq(xm@[i as int].1, ym@[jj].1))),
            decreases m - j + (if found { 0int } else { 1int }),
        {
            proof {
                lemma_hsize_pairs_elem(xm@, i as int);
                lemma_hsize_pairs_elem(ym@, j as int);
            }
            if hashable_eq(&x[i].0, &y[j].0) && hashable_eq(&x[i].1, &y[j].1) {
                found = true;
            } else {
                j += 1;
            }
        }
        if !found {
            proof {
                lemma_hobj_subset_forall(xm@, ym@);
            }
            return false;
        }
        i += 1;
    }
    proof {
        lemma_hobj_subset_forall(xm@, ym@);
    }
    true
}

impl PartialEq for HashableValue {
    fn eq(&self, other: &Self) -> (r: bool) {
        hashable_eq(self, other)
    }
}

impl Eq for HashableValue {}

impl vstd::std_specs::cmp::PartialEqSpecImpl for HashableValue {
    open spec fn obeys_eq_spec() -> bool {
        true
    }

    open spec fn eq_spec(&self, other: &HashableValue) -> bool {
        heq(hmodel(*self), hmodel(*other))
    }
}

// ---------------------------------------------------------------------------
// Full sizes: termination measures for operations that walk whole values,
// exception metadata included.
// ---------------------------------------------------------------------------

pub open spec fn vfull(v: VModel) -> nat
    decreases v,
{
    match v {
        VModel::Exception(_, m) => 1 + pfull(m),
        VModel::Null => 1,
        VModel::Boolean(_) => 1,
        VModel::Number(_) => 1,
        VModel::String(_) => 1,
        VModel::Array(s) => 1 + vfull_seq(s),
        VModel::Object(s) => 1 + pfull(s),
        VModel::Function => 1,
    }
}

pub open spec fn vfull_seq(s: Seq<VModel>) -> nat
    decreases s,
{
    if s.len() == 0 {
        1
    } else {
        1 + vfull(s[0]) + vfull_seq(s.drop_first())
    }
}

pub open spec fn pfull(s: Seq<(HModel, VModel)>) -> nat
    decreases s,
{
    if s.len() == 0 {
        1
    } else {
        1 + hfull(s[0].0) + vfull(s[0].1) + pfull(s.drop_first())
    }
}

pub open spec fn hfull(h: HModel) -> nat
    decreases h,
{
    match h {
        HModel::Exception(_, m) => 1 + pfull(m),
        HModel::Null => 1,
        HModel::Boolean(_) => 1,
        HModel::Number(_) => 1,
        HModel::String(_) => 1,
        HModel::Array(s) => 1 + hfull_seq(s),
        HModel::Object(s) => 1 + hpfull(s),
    }
}

pub open spec fn hfull_seq(s: Seq<HModel>) -> nat
    decreases s,
{
    if s.len() == 0 {
        1
    } else {
        1 + hfull(s[0]) + hfull_seq(s.drop_first())
    }
}

pub open spec fn hpfull(s: Seq<(HModel, HModel)>) -> nat
    decreases s,
{
    if s.len() == 0 {
        1
    } else {
        1 + hfull(s[0].0) + hfull(s[0].1) + hpfull(s.drop_first())
    }
}

pub proof fn lemma_vfull_seq_elem(s: Seq<VModel>, i: int)
    requires
        0 <= i < s.len(),
    ensures
        vfull(s[i]) < vfull_seq(s),
    decreases i,
{
    if i > 0 {
        lemma_vfull_seq_elem(s.drop_first(), i - 1);
        assert(s.drop_first()[i - 1] == s[i]);
    }
}

pub proof fn lemma_pfull_elem(s: Seq<(HModel, VModel)>, i: int)
    requires
        0 <= i < s.len(),
    ensures
        hfull(s[i].0) < pfull(s),
        vfull(s[i].1) < pfull(s),
    decreases i,
{
    if i > 0 {
        lemma_pfull_elem(s.drop_first(), i - 1);
        assert(s.drop_first()[i - 1] == s[i]);
    }
}

pub proof fn lemma_hfull_seq_elem(s: Seq<HModel>, i: int)
    requires
        0 <= i < s.len(),
    ensures
        hfull(s[i]) < hfull_seq(s),
    decreases i,
{
    if i > 0 {
        lemma_hfull_seq_elem(s.drop_first(), i - 1);
        assert(s.drop_first()[i - 1] == s[i]);
    }
}

pub proof fn lemma_hpfull_elem(s: Seq<(HModel, HModel)>, i: int)
    requires
        0 <= i < s.len(),
    ensures
        hfull(s[i].0) < hpfull(s),
        hfull(s[i].1) < hpfull(s),
    decreases i,
{
    if i > 0 {
        lemma_hpfull_elem(s.drop_first(), i - 1);
        assert(s.drop_first()[i - 1] == s[i]);
    }
}

// ---------------------------------------------------------------------------
// Deep clones, specified through the models.
// ---------------------------------------------------------------------------

pub fn clone_value(v: &Value) -> (r: Value)
    ensures
        vmodel(r) == vmodel(*v),
    decreases vfull(vmodel(*v)),
{
    match v {
        Value::Exception(n, m) => Value::Exception(n.clone(), clone_object(m)),
        Value::Null => Value::Null,
        Value::Boolean(b) => Value::Boolean(*b),
        Value::Number(q) => Value::Number(*q),
        Value::String(s) => Value::String(s.clone()),
        Value::Array(items) => {
            let n = items.len();
            let mut out: Vec<Value> = Vec::new();
            let mut i: usize = 0;
            while i < n
                invariant
                    *v == Value::Array(*items),
                    n == items@.len(),
                    i <= n,
                    out@.len() == i,
                    forall|j: int| 0 <= j < i ==> vmodel(out@[j]) == vmodel(items@[j]),
                decreases n - i,
            {
                proof {
                    lemma_vmodels_index(items@);
                    lemma_vfull_seq_elem(vmodels(items@), i as int);
                }
                out.push(clone_value(&items[i]));
                i += 1;
            }
            proof {
                lemma_vmodels_index(out@);
                lemma_vmodels_index(items@);
                assert(vmodels(out@) =~= vmodels(items@));
            }
            Value::Array(out)
        },
        Value::Object(o) => Value::Object(clone_object(o)),
        Value::Function => Value::Function,
    }
}

pub fn clone_hashable(h: &HashableValue) -> (r: HashableValue)
    ensures
        hmodel(r) == hmodel(*h),
    decreases hfull(hmodel(*h)),
{
    match h {
        HashableValue::Exception(n, m) => HashableValue::Exception(n.clone(), clone_object(m)),
        HashableValue::Null => HashableValue::Null,
        HashableValue::Boolean(b) => HashableValue::Boolean(*b),
        HashableValue::Number(q) => HashableValue::Number(*q),
        HashableValue::String(s) => HashableValue::String(s.clone()),
        HashableValue::Array(items) => {
            let n = items.len();
            let mut out: Vec<HashableValue> = Vec::new();
            let mut i: usize = 0;
            while i < n
                invariant
                    *h == HashableValue::Array(*items),
                    n == items@.len(),
                    i <= n,
                    out@.len() == i,
                    forall|j: int| 0 <= j < i ==> hmodel(out@[j]) == hmodel(items@[j]),
                decreases n - i,
            {
                proof {
                    lemma_hmodels_index(items@);
                    lemma_hfull_seq_elem(hmodels(items@), i as int);
                }
                out.push(clone_hashable(&items[i]));
                i += 1;
            }
            proof {
                lemma_hmodels_index(out@);
                lemma_hmodels_index(items@);
                assert(hmodels(out@) =~= hmodels(items@));
            }
            HashableValue::Array(out)
        },
        HashableValue::Object(o) => HashableValue::Object(clone_hashable_object(o)),
    }
}

pub fn clone_object(o: &Object) -> (r: Object)
    ensures
        r@ == o@,
    decreases pfull(pairs_model(o.entries@)),
{
    let n = o.entries.len();
    let mut out: Vec<(HashableValue, Value)> = Vec::new();
    let mut i: usize = 0;
    while i < n
        invariant
            n == o.entries@.len(),
            i <= n,
            out@.len() == i,
            forall|j: int| 0 <= j < i ==> hmodel(out@[j].0) == hmodel(o.entries@[j].0)
                && vmodel(out@[j].1) == vmodel(o.entries@[j].1),
        decreases n - i,
    {
        proof {
            lemma_pairs_model_index(o.entries@);
            lemma_pfull_elem(pairs_model(o.entries@), i as int);
        }
        let k = clone_hashable(&o.entries[i].0);
        let v = clone_value(&o.entries[i].1);
        out.push((k, v));
        i += 1;
    }
    proof {
        lemma_pairs_model_index(out@);
        lemma_pairs_model_index(o.entries@);
        assert(pairs_model(out@) =~= pairs_model(o.entries@));
    }
    Object { entries: out }
}

pub fn clone_hashable_object(o: &HashableObject) -> (r: HashableObject)
    ensures
        r@ == o@,
    decreases hpfull(hpairs_model(o.entries@)),
{
    let n = o.entries.len();
    let mut out: Vec<(HashableValue, HashableValue)> = Vec::new();
    let mut i: usize = 0;
    while i < n
        invariant
            n == o.entries@.len(),
            i <= n,
            out@.len() == i,
            forall|j: int| 0 <= j < i ==> hmodel(out@[j].0) == hmodel(o.entries@[j].0)
                && hmodel(out@[j].1) == hmodel(o.entries@[j].1),
        decreases n - i,
    {
        proof {
            lemma_hpairs_model_index(o.entries@);
            lemma_hpfull_elem(hpairs_model(o.entries@), i as int);
        }
        let k = clone_hashable(&o.entries[i].0);
        let v = clone_hashable(&o.entries[i].1);
        out.push((k, v));
        i += 1;
    }
    proof {
        lemma_hpairs_model_index(out@);
        lemma_hpairs_model_index(o.entries@);
        assert(hpairs_model(out@) =~= hpairs_model(o.entries@));
    }
    HashableObject { entries: out }
}

impl Clone for Value {
    fn clone(&self) -> (r: Value)
        ensures
            vmodel(r) == vmodel(*self),
    {
        clone_value(self)
    }
}

impl Clone for HashableValue {
    fn clone(&self) -> (r: HashableValue)
        ensures
            hmodel(r) == hmodel(*self),
    {
        clone_hashable(self)
    }
}

impl Clone for Object {
    fn clone(&self) -> (r: Object)
        ensures
            r@ == self@,
    {
        clone_object(self)
    }
}

impl Clone for HashableObject {
    fn clone(&self) -> (r: HashableObject)
        ensures
            r@ == self@,
    {
        clone_hashable_object(self)
    }
}

// ---------------------------------------------------------------------------
// Widening: the lossless conversion from hashable values to values.
// ---------------------------------------------------------------------------

/// What widening a hashable value yields: the same shape, with arrays and
/// object values widened; exception metadata is carried over unchanged.
pub open spec fn widen(h: HModel) -> VModel
    decreases hsize(h),
{
    match h {
        HModel::Exception(n, m) => VModel::Exception(n, m),
        HModel::Null => VModel::Null,
        HModel::Boolean(b) => VModel::Boolean(b),
        HModel::Number(r) => VModel::Number(r),
        HModel::String(s) => VModel::String(s),
        HModel::Array(s) => VModel::Array(widen_seq(s)),
        HModel::Object(s) => VModel::Object(widen_pairs(s)),
    }
}

pub open spec fn widen_seq(s: Seq<HModel>) -> Seq<VModel>
    decreases hsize_seq(s),
{
    if s.len() == 0 {
        Seq::empty()
    } else {
        seq![widen(s[0])] + widen_seq(s.drop_first())
    }
}

pub open spec fn widen_pairs(s: Seq<(HModel, HModel)>) -> Seq<(HModel, VModel)>
    decreases hsize_pairs(s),
{
    if s.len() == 0 {
        Seq::empty()
    } else {
        seq![(s[0].0, widen(s[0].1))] + widen_pairs(s.drop_first())
    }
}

pub proof fn lemma_widen_seq_index(s: Seq<HModel>)
    ensures
        widen_seq(s).len() == s.len(),
        forall|i: int| 0 <= i < s.len() ==> widen_seq(s)[i] == widen(s[i]),
    decreases s.len(),
{
    if s.len() != 0 {
        lemma_widen_seq_index(s.drop_first());
        assert(forall|i: int| 0 <= i < s.drop_first().len() ==> s.drop_first()[i] == s[i + 1]);
    }
}

pub proof fn lemma_widen_pairs_index(s: Seq<(HModel, HModel)>)
    ensures
        widen_pairs(s).len() == s.len(),
        forall|i: int| 0 <= i < s.len() ==> widen_pairs(s)[i] == (s[i].0, widen(s[i].1)),
    decreases s.len(),
{
    if s.len() != 0 {
        lemma_widen_pairs_index(s.drop_first());
        assert(forall|i: int| 0 <= i < s.drop_first().len() ==> s.drop_first()[i] == s[i + 1]);
    }
}

impl Value {
    /// Widens a borrowed hashable value into a `Value`.
    pub fn from_hashable_ref(h: &HashableValue) -> (r: Value)
        ensures
            vmodel(r) == widen(hmodel(*h)),
        decreases hfull(hmodel(*h)),
    {
        match h {
            HashableValue::Exception(n, m) => Value::Exception(n.clone(), clone_object(m)),
            HashableValue::Null => Value::Null,
            HashableValue::Boolean(b) => Value::Boolean(*b),
            HashableValue::Number(q) => Value::Number(*q),
            HashableValue::String(s) => Value::String(s.clone()),
            HashableValue::Array(items) => {
                proof {
                    lemma_hmodels_index(items@);
                    lemma_widen_seq_index(hmodels(items@));
                }
                let n = items.len();
                let mut out: Vec<Value> = Vec::new();
                let mut i: usize = 0;
                while i < n
                    invariant
                        *h == HashableValue::Array(*items),
                        n == items@.len(),
                        i <= n,
                        out@.len() == i,
                        hmodels(items@).len() == n,
                        forall|j: int| 0 <= j < n ==> hmodels(items@)[j] == hmodel(items@[j]),
                        forall|j: int| 0 <= j < i ==> vmodel(out@[j]) == widen(hmodel(items@[j])),
                    decreases n - i,
                {
                    proof {
                        lemma_hfull_seq_elem(hmodels(items@), i as int);
                    }
                    out.push(Value::from_hashable_ref(&items[i]));
                    i += 1;
                }
                proof {
                    lemma_vmodels_index(out@);
                    lemma_widen_seq_index(hmodels(items@));
                    assert(vmodels(out@) =~= widen_seq(hmodels(items@)));
                }
                Value::Array(out)
            },
            HashableValue::Object(o) => {
                proof {
                    lemma_hpairs_model_index(o.entries@);
                    lemma_widen_pairs_index(hpairs_model(o.entries@));
                }
                let n = o.entries.len();
                let mut out: Vec<(HashableValue, Value)> = Vec::new();
                let mut i: usize = 0;
                while i < n
                    invariant
                        *h == HashableValue::Object(*o),
                        n == o.entries@.len(),
                        i <= n,
                        out@.len() == i,
                        forall|j: int| 0 <= j < i ==> hmodel(out@[j].0) == hmodel(o.entries@[j].0)
                            && vmodel(out@[j].1) == widen(hmodel(o.entries@[j].1)),
                    decreases n - i,
                {
                    proof {
                        lemma_hpairs_model_index(o.entries@);
                        lemma_hpfull_elem(hpairs_model(o.entries@), i as int);
                    }
                    let k = clone_hashable(&o.entries[i].0);
                    let v = Value::from_hashable_ref(&o.entries[i].1);
                    out.push((k, v));
                    i += 1;
                }
                proof {
                    lemma_pairs_model_index(out@);
                    lemma_hpairs_model_index(o.entries@);
                    lemma_widen_pairs_index(hpairs_model(o.entries@));
                    assert(pairs_model(out@) =~= widen_pairs(hpairs_model(o.entries@)));
                }
                Value::Object(Object { entries: out })
            },
        }
    }

    /// Widens an owned hashable value into a `Value`. Agrees with the
    /// by-reference conversion: both yield `widen` of the argument's model.
    pub fn from_hashable(h: HashableValue) -> (r: Value)
        ensures
            vmodel(r) == widen(hmodel(h)),
    {
        Value::from_hashable_ref(&h)
    }
}

// ---------------------------------------------------------------------------
// Hashing: a 64-bit hash consistent with hashable equality. Exceptions hash
// by name only; arrays hash order-sensitively; objects hash by size only,
// since their equality ignores insertion order.
// ---------------------------------------------------------------------------

/// Truncation to 64 bits, the modulus of all hash arithmetic.
pub open spec fn wrap64(x: int) -> int {
    x % 0x1_0000_0000_0000_0000
}

/// Order-sensitive hash of a character sequence.
pub open spec fn strhash(s: Seq<char>) -> int
    decreases s,
{
    if s.len() == 0 {
        43
    } else {
        wrap64(131 * strhash(s.drop_first()) + s[0] as int)
    }
}

pub open spec fn hhash(h: HModel) -> int
    decreases hsize(h),
{
    match h {
        HModel::Exception(n, _) => wrap64(11 + 131 * strhash(n)),
        HModel::Null => 13,
        HModel::Boolean(b) => if b { 17 } else { 19 },
        HModel::Number(r) => wrap64(23 + 131 * (crate::rational::mag(r.num as int) as int)
            + 137 * (crate::rational::mag(r.den as int) as int)),
        HModel::String(s) => wrap64(29 + 131 * strhash(s)),
        HModel::Array(s) => wrap64(31 + hhash_seq(s)),
        HModel::Object(s) => wrap64(37 + 131 * (s.len() as int)),
    }
}

/// Computes `strhash` of a string's characters.
#[verifier::loop_isolation(false)]
fn strhash_exec(s: &String) -> (r: u64)
    ensures
        r as int == strhash(s@),
{
    let n = s.as_str().unicode_len();
    let mut acc: u64 = 43;
    let mut i: usize = n;
    proof {
        assert(s@.skip(n as int) =~= Seq::<char>::empty());
    }
    while i > 0
        invariant
            n == s@.len(),
            i <= n,
            acc as int == strhash(s@.skip(i as int)),
        decreases i,
    {
        let c = s.as_str().get_char(i - 1);
        acc = (((131u128 * (acc as u128) + ((c as u32) as u128))
            % 0x1_0000_0000_0000_0000u128) as u64);
        i -= 1;
        proof {
            assert(s@.skip(i as int).drop_first() =~= s@.skip(i + 1));
            assert(s@.skip(i as int)[0] == s@[i as int]);
        }
    }
    proof {
        assert(s@.skip(0) =~= s@);
    }
    acc
}

pub open spec fn hhash_seq(s: Seq<HModel>) -> int
    decreases hsize_seq(s),
{
    if s.len() == 0 {
        41
    } else {
        wrap64(131 * hhash_seq(s.drop_first()) + hhash(s[0]))
    }
}

impl HashableValue {
    /// Computes the 64-bit hash code of this value, per `hhash`.
    pub fn hash_code(&self) -> (r: u64)
        ensures
            r as int == hhash(hmodel(*self)),
        decreases hsize(hmodel(*self)),
    {
        match self {
            HashableValue::Exception(n, _) => {
                let h = strhash_exec(n);
                (((11u128 + 131u128 * (h as u128)) % 0x1_0000_0000_0000_0000u128) as u64)
            },
            HashableValue::Null => 13,
            HashableValue::Boolean(b) => if *b { 17 } else { 19 },
            HashableValue::Number(q) => {
                let na: u128 = if q.num < 0 {
                    (-(q.num as i128)) as u128
                } else {
                    q.num as u128
                };
                let da: u128 = if q.den < 0 {
                    (-(q.den as i128)) as u128
                } else {
                    q.den as u128
                };
                (((23u128 + 131u128 * na + 137u128 * da) % 0x1_0000_0000_0000_0000u128) as u64)
            },
            HashableValue::String(s) => {
                let h = strhash_exec(s);
                (((29u128 + 131u128 * (h as u128)) % 0x1_0000_0000_0000_0000u128) as u64)
            },
            HashableValue::Array(items) => {
                proof {
                    lemma_hmodels_index(items@);
                }
                let n = items.len();
                let mut acc: u64 = 41;
                let mut i: usize = n;
                proof {
                    assert(hmodels(items@).skip(n as int) =~= Seq::<HModel>::empty());
                }
                while i > 0
                    invariant
                        *self == HashableValue::Array(*items),
                        n == items@.len(),
                        i <= n,
                        hmodels(items@).len() == n,
                        forall|j: int| 0 <= j < n ==> hmodels(items@)[j] == hmodel(items@[j]),
                        acc as int == hhash_seq(hmodels(items@).skip(i as int)),
                    decreases i,
                {
                    proof {
                        lemma_hsize_seq_elem(hmodels(items@), i - 1);
                    }
                    let eh = HashableValue::hash_code(&items[i - 1]);
                    acc = (((131u128 * (acc as u128) + (eh as u128))
                        % 0x1_0000_0000_0000_0000u128) as u64);
                    i -= 1;
                    proof {
                        let m = hmodels(items@);
                        assert(m.skip(i as int).drop_first() =~= m.skip(i + 1));
                        assert(m.skip(i as int)[0] == m[i as int]);
                    }
                }
                proof {
                    assert(hmodels(items@).skip(0) =~= hmodels(items@));
                }
                (((31u128 + (acc as u128)) % 0x1_0000_0000_0000_0000u128) as u64)
            },
            HashableValue::Object(o) => {
                proof {
                    lemma_hpairs_model_index(o.entries@);
                }
                let len = o.entries.len();
                (((37u128 + 131u128 * (len as u128)) % 0x1_0000_0000_0000_0000u128) as u64)
            },
        }
    }
}

// ---------------------------------------------------------------------------
// Hashing is consistent with equality: hashable-equal values hash equal.
// ---------------------------------------------------------------------------

/// Equal values hash equal.
pub proof fn lemma_equal_values_hash_equal(a: HModel, b: HModel)
    requires
        heq(a, b),
    ensures
        hhash(a) == hhash(b),
    decreases hsize(a) + hsize(b),
{
    match (a, b) {
        (HModel::Array(x), HModel::Array(y)) => {
            lemma_equal_seqs_hash_equal(x, y);
        },
        _ => {},
    }
}

proof fn lemma_equal_seqs_hash_equal(x: Seq<HModel>, y: Seq<HModel>)
    requires
        heq_seq(x, y),
    ensures
        hhash_seq(x) == hhash_seq(y),
    decreases hsize_seq(x) + hsize_seq(y),
{
    if x.len() != 0 {
        lemma_equal_values_hash_equal(x[0], y[0]);
        lemma_equal_seqs_hash_equal(x.drop_first(), y.drop_first());
    }
}

/// Exception identity is by name alone: two exceptions with the same name
/// and arbitrary, possibly different, metadata are equal and hash equal.
pub proof fn lemma_exception_identity_by_name(
    n: Seq<char>,
    m1: Seq<(HModel, VModel)>,
    m2: Seq<(HModel, VModel)>,
)
    ensures
        heq(HModel::Exception(n, m1), HModel::Exception(n, m2)),
        hhash(HModel::Exception(n, m1)) == hhash(HModel::Exception(n, m2)),
{
}

/// Two arrays are equal exactly when they have the same length and
/// pairwise-equal elements, in order.
pub proof fn lemma_array_equality_pointwise(x: Seq<HModel>, y: Seq<HModel>)
    ensures
        heq(HModel::Array(x), HModel::Array(y)) <==> (x.len() == y.len() && forall|i: int|
            0 <= i < x.len() ==> heq(x[i], y[i])),
{
    lemma_heq_seq_pointwise(x, y);
}

/// Two objects are equal exactly when they have the same number of entries
/// and each entry of either has an equal entry in the other, regardless of
/// insertion order.
/// Two objects are equal exactly when they have the same number of entries
/// and each entry of either has an equal entry in the other, regardless of
/// insertion order.
#[verifier::spinoff_prover]
pub proof fn lemma_object_equality_order_free(
    x: Seq<(HModel, HModel)>,
    y: Seq<(HModel, HModel)>,
)
    ensures
        heq(HModel::Object(x), HModel::Object(y)) <==> {
            &&& x.len() == y.len()
            &&& forall|i: int| #![trigger x[i]] 0 <= i < x.len() ==> exists|j: int|
                0 <= j < y.len() && heq(x[i].0, y[j].0) && heq(x[i].1, y[j].1)
            &&& forall|j: int| #![trigger y[j]] 0 <= j < y.len() ==> exists|i: int|
                0 <= i < x.len() && heq(y[j].0, x[i].0) && heq(y[j].1, x[i].1)
        },
{
    lemma_hobj_subset_forall(x, y);
    lemma_hobj_subset_forall(y, x);
    if heq(HModel::Object(x), HModel::Object(y)) {
        assert forall|i: int| #![trigger x[i]] 0 <= i < x.len() implies exists|j: int|
            0 <= j < y.len() && heq(x[i].0, y[j].0) && heq(x[i].1, y[j].1) by {
            assert(has_match(x[i].0, x[i].1, y));
            lemma_has_match_exists(x[i].0, x[i].1, y);
        }
        assert forall|j: int| #![trigger y[j]] 0 <= j < y.len() implies exists|i: int|
            0 <= i < x.len() && heq(y[j].0, x[i].0) && heq(y[j].1, x[i].1) by {
            assert(has_match(y[j].0, y[j].1, x));
            lemma_has_match_exists(y[j].0, y[j].1, x);
        }
    } else if x.len() == y.len() {
        if !hobj_subset(x, y) {
            let i = choose|i: int| 0 <= i < x.len() && !has_match(x[i].0, x[i].1, y);
            lemma_has_match_exists(x[i].0, x[i].1, y);
            assert(!(exists|j: int| 0 <= j < y.len() && heq(x[i].0, y[j].0) && heq(x[i].1, y[j].1)));
        } else {
            assert(!hobj_subset(y, x));
            let j = choose|j: int| 0 <= j < y.len() && !has_match(y[j].0, y[j].1, x);
            lemma_has_match_exists(y[j].0, y[j].1, x);
            assert(!(exists|i: int| 0 <= i < x.len() && heq(y[j].0, x[i].0) && heq(y[j].1, x[i].1)));
        }
    }
}

// ---------------------------------------------------------------------------
// Object operations.
// ---------------------------------------------------------------------------

/// Keys are unique: no later key equals an earlier one.
pub open spec fn keys_unique(s: Seq<(HModel, VModel)>) -> bool {
    forall|i: int, j: int| 0 <= i < j < s.len() ==> !heq(s[i].0, s[j].0)
}

/// Looking a key up yields the value of its first (and only) occurrence.
pub open spec fn obj_lookup(s: Seq<(HModel, VModel)>, k: HModel) -> Option<VModel>
    decreases s.len(),
{
    if s.len() == 0 {
        Option::None
    } else if heq(s[0].0, k) {
        Option::Some(s[0].1)
    } else {
        obj_lookup(s.drop_first(), k)
    }
}

/// Inserting replaces the value of an existing equal key in place, keeping
/// the original key and its first-insertion position; otherwise it appends.
pub open spec fn obj_insert(
    s: Seq<(HModel, VModel)>,
    k: HModel,
    v: VModel,
) -> Seq<(HModel, VModel)>
    decreases s.len(),
{
    if s.len() == 0 {
        seq![(k, v)]
    } else if heq(s[0].0, k) {
        seq![(s[0].0, v)] + s.drop_first()
    } else {
        seq![s[0]] + obj_insert(s.drop_first(), k, v)
    }
}

proof fn lemma_obj_insert_found(s: Seq<(HModel, VModel)>, k: HModel, v: VModel, i: int)
    requires
        0 <= i < s.len(),
        forall|j: int| 0 <= j < i ==> !heq(s[j].0, k),
        heq(s[i].0, k),
    ensures
        obj_insert(s, k, v) =~= s.update(i, (s[i].0, v)),
    decreases i,
{
    if i == 0 {
    } else {
        lemma_obj_insert_found(s.drop_first(), k, v, i - 1);
        assert(forall|j: int| 0 <= j < i - 1 ==> s.drop_first()[j] == s[j + 1]);
        assert(s.drop_first()[i - 1] == s[i]);
        assert(obj_insert(s, k, v) == seq![s[0]] + obj_insert(s.drop_first(), k, v));
        assert(seq![s[0]] + s.drop_first().update(i - 1, (s[i].0, v)) =~= s.update(i, (s[i].0, v)));
    }
}

proof fn lemma_obj_insert_missing(s: Seq<(HModel, VModel)>, k: HModel, v: VModel)
    requires
        forall|j: int| 0 <= j < s.len() ==> !heq(s[j].0, k),
    ensures
        obj_insert(s, k, v) =~= s.push((k, v)),
    decreases s.len(),
{
    if s.len() != 0 {
        assert(forall|j: int| 0 <= j < s.drop_first().len() ==> s.drop_first()[j] == s[j + 1]);
        lemma_obj_insert_missing(s.drop_first(), k, v);
        assert(seq![s[0]] + s.drop_first().push((k, v)) =~= s.push((k, v)));
    }
}

proof fn lemma_obj_lookup_found(s: Seq<(HModel, VModel)>, k: HModel, i: int)
    requires
        0 <= i < s.len(),
        forall|j: int| 0 <= j < i ==> !heq(s[j].0, k),
        heq(s[i].0, k),
    ensures
        obj_lookup(s, k) == Option::Some(s[i].1),
    decreases i,
{
    if i > 0 {
        lemma_obj_lookup_found(s.drop_first(), k, i - 1);
        assert(forall|j: int| 0 <= j < i - 1 ==> s.drop_first()[j] == s[j + 1]);
        assert(s.drop_first()[i - 1] == s[i]);
    }
}

proof fn lemma_obj_lookup_missing(s: Seq<(HModel, VModel)>, k: HModel)
    requires
        forall|j: int| 0 <= j < s.len() ==> !heq(s[j].0, k),
    ensures
        obj_lookup(s, k) == Option::None::<VModel>,
    decreases s.len(),
{
    if s.len() != 0 {
        assert(forall|j: int| 0 <= j < s.drop_first().len() ==> s.drop_first()[j] == s[j + 1]);
        lemma_obj_lookup_missing(s.drop_first(), k);
    }
}

impl Object {
    /// The empty object.
    pub fn new() -> (r: Object)
        ensures
            r@ == Seq::<(HModel, VModel)>::empty(),
            keys_unique(r@),
    {
        Object { entries: Vec::new() }
    }

    /// The number of entries.
    pub fn len(&self) -> (r: usize)
        ensures
            r == self@.len(),
    {
        proof {
            lemma_pairs_model_index(self.entries@);
        }
        self.entries.len()
    }

    /// Inserts a key/value pair, per `obj_insert`: an existing equal key
    /// keeps its position and its original key value; a new key is appended.
    /// Uniqueness of keys is preserved.
    #[verifier::loop_isolation(false)]
    pub fn insert(&mut self, k: HashableValue, v: Value)
        ensures
            pairs_model(final(self).entries@) == obj_insert(pairs_model(old(self).entries@),
                hmodel(k), vmodel(v)),
            keys_unique(pairs_model(old(self).entries@))
                ==> keys_unique(pairs_model(final(self).entries@)),
    {
        proof {
            lemma_pairs_model_index(self.entries@);
        }
        let ghost sm = pairs_model(old(self).entries@);
        let ghost km = hmodel(k);
        let ghost vm = vmodel(v);
        let n = self.entries.len();
        let mut i: usize = 0;
        while i < n
            invariant
                n == self.entries@.len(),
                i <= n,
                sm == pairs_model(self.entries@),
                sm.len() == n,
                forall|j: int| 0 <= j < n ==> sm[j]
                    == (hmodel(self.entries@[j].0), vmodel(self.entries@[j].1)),
                km == hmodel(k),
                vm == vmodel(v),
                forall|j: int| 0 <= j < i ==> !heq(sm[j].0, km),
            decreases n - i,
        {
            if hashable_eq(&self.entries[i].0, &k) {
                let ghost pre = self.entries@;
                let (old_k, _old_v) = self.entries.remove(i);
                self.entries.insert(i, (old_k, v));
                proof {
                    assert(self.entries@ =~= pre.update(i as int, (pre[i as int].0, v)));
                    lemma_pairs_model_index(self.entries@);
                    lemma_obj_insert_found(sm, km, vm, i as int);
                    let t = obj_insert(sm, km, vm);
                    assert(t == sm.update(i as int, (sm[i as int].0, vm)));
                    assert forall|j: int| 0 <= j < self.entries@.len()
                        implies #[trigger] pairs_model(self.entries@)[j] == t[j] by {
                        if j != i {
                            assert(self.entries@[j] == pre[j]);
                        }
                    }
                    assert(pairs_model(self.entries@) =~= t);
                    if keys_unique(sm) {
                        assert forall|p: int, q: int| 0 <= p < q < t.len()
                            implies !heq(t[p].0, t[q].0) by {
                            assert(t[p].0 == sm[p].0);
                            assert(t[q].0 == sm[q].0);
                        }
                        assert(keys_unique(t));
                    }
                    assert(pairs_model(self.entries@) == obj_insert(sm, km, vm));
                }
                return;
            }
            i += 1;
        }
        self.entries.push((k, v));
        proof {
            lemma_pairs_model_index(self.entries@);
            lemma_obj_insert_missing(sm, km, vm);
            assert(pairs_model(self.entries@) =~= obj_insert(sm, km, vm));
            if keys_unique(sm) {
                let t = obj_insert(sm, km, vm);
                assert forall|p: int, q: int| 0 <= p < q < t.len() implies !heq(t[p].0, t[q].0) by {
                    if q < sm.len() {
                        assert(t[p].0 == sm[p].0 && t[q].0 == sm[q].0);
                    } else {
                        assert(t[p].0 == sm[p].0 && t[q].0 == km);
                    }
                }
            }
        }
    }

    /// Looks a key up, per `obj_lookup`.
    pub fn get(&self, k: &HashableValue) -> (r: Option<&Value>)
        ensures
            match r {
                Option::Some(v) => obj_lookup(self@, hmodel(*k)) == Option::Some(vmodel(*v)),
                Option::None => obj_lookup(self@, hmodel(*k)) == Option::None::<VModel>,
            },
    {
        proof {
            lemma_pairs_model_index(self.entries@);
        }
        let ghost sm = self@;
        let ghost km = hmodel(*k);
        let n = self.entries.len();
        let mut i: usize = 0;
        while i < n
            invariant
                n == self.entries@.len(),
                i <= n,
                sm == pairs_model(self.entries@),
                sm.len() == n,
                forall|j: int| 0 <= j < n ==> sm[j]
                    == (hmodel(self.entries@[j].0), vmodel(self.entries@[j].1)),
                km == hmodel(*k),
                forall|j: int| 0 <= j < i ==> !heq(sm[j].0, km),
            decreases n - i,
        {
            if hashable_eq(&self.entries[i].0, k) {
                proof {
                    lemma_obj_lookup_found(sm, km, i as int);
                }
                return Option::Some(&self.entries[i].1);
            }
            i += 1;
        }
        proof {
            lemma_obj_lookup_missing(sm, km);
        }
        Option::None
    }
}

impl HashableObject {
    /// The empty object.
    pub fn new() -> (r: HashableObject)
        ensures
            r@ == Seq::<(HModel, HModel)>::empty(),
    {
        HashableObject { entries: Vec::new() }
    }

    /// The number of entries.
    pub fn len(&self) -> (r: usize)
        ensures
            r == self@.len(),
    {
        proof {
            lemma_hpairs_model_index(self.entries@);
        }
        self.entries.len()
    }

    /// Appends a key/value pair at the end.
    pub fn push(&mut self, k: HashableValue, v: HashableValue)
        ensures
            final(self)@ == old(self)@.push((hmodel(k), hmodel(v))),
    {
        proof {
            lemma_hpairs_model_index(self.entries@);
        }
        let ghost sm = self@;
        self.entries.push((k, v));
        proof {
            lemma_hpairs_model_index(self.entries@);
            assert(hpairs_model(self.entries@) =~= sm.push((hmodel(k), hmodel(v))));
        }
    }
}

/// Widening preserves full size.
pub proof fn lemma_vfull_widen(h: HModel)
    ensures
        vfull(widen(h)) == hfull(h),
    decreases hfull(h),
{
    match h {
        HModel::Array(s) => lemma_vfull_widen_seq(s),
        HModel::Object(s) => lemma_vfull_widen_pairs(s),
        _ => {},
    }
}

proof fn lemma_vfull_widen_seq(s: Seq<HModel>)
    ensures
        vfull_seq(widen_seq(s)) == hfull_seq(s),
    decreases hfull_seq(s),
{
    if s.len() != 0 {
        lemma_vfull_widen(s[0]);
        lemma_vfull_widen_seq(s.drop_first());
        assert((seq![widen(s[0])] + widen_seq(s.drop_first())).drop_first()
            =~= widen_seq(s.drop_first()));
    }
}

proof fn lemma_vfull_widen_pairs(s: Seq<(HModel, HModel)>)
    ensures
        pfull(widen_pairs(s)) == hpfull(s),
    decreases hpfull(s),
{
    if s.len() != 0 {
        lemma_vfull_widen(s[0].1);
        lemma_vfull_widen_pairs(s.drop_first());
        assert((seq![(s[0].0, widen(s[0].1))] + widen_pairs(s.drop_first())).drop_first()
            =~= widen_pairs(s.drop_first()));
    }
}

} // verus!
