//! An aggregate as a value: a checked name and its layers, compared by content.
use vstd::prelude::*;
use crate::aggregate::layer_models;
use crate::aggregate_layer::{AggregateLayer, LayerModel};
use crate::names::AggregateName;
use crate::value_object::ValueObject;

verus! {

pub struct AggregateValue {
    pub name: AggregateName,
    pub layers: Vec<AggregateLayer>,
}

/// Whether each of the first `n` layers of `a` has an equivalent layer in `b`.
pub open spec fn covered_upto(a: Seq<LayerModel>, b: Seq<LayerModel>, n: int) -> bool {
    forall|i: int| 0 <= i < n ==> exists|j: int| 0 <= j < b.len() && (#[trigger] a[i]).equivalent(#[trigger] b[j])
}

/// Whether every layer of `a` has an equivalent layer in `b`.
pub open spec fn layers_covered(a: Seq<LayerModel>, b: Seq<LayerModel>) -> bool {
    covered_upto(a, b, a.len() as int)
}

/// An aggregate compared by content: same name, and each layer has an
/// equivalent in the other.
pub struct Aggregate {
    value: AggregateValue,
}

impl Aggregate {
    pub closed spec fn name(&self) -> Seq<char> {
        self.value.name@
    }
    pub closed spec fn layers(&self) -> Seq<LayerModel> {
        layer_models(self.value.layers@)
    }

    /// Whether some layer of `v` is equivalent to `layer`.
    fn has_equivalent(v: &Vec<AggregateLayer>, layer: &AggregateLayer) -> (r: bool)
        ensures
            r == exists|j: int| 0 <= j < v@.len() && layer@.equivalent(#[trigger] layer_models(v@)[j]),
    {
        let mut j: usize = 0;
        while j < v.len()
            invariant
                j <= v.len(),
                forall|k: int| 0 <= k < j ==> !layer@.equivalent(#[trigger] layer_models(v@)[k]),
            decreases v.len() - j,
        {
            if layer.is_equal(&v[j]) {
                proof {
                    assert(layer_models(v@)[j as int] == v@[j as int]@);
                }
                return true;
            }
            proof {
                assert(layer_models(v@)[j as int] == v@[j as int]@);
            }
            j = j + 1;
        }
        false
    }
}

impl ValueObject<AggregateValue> for Aggregate {
    fn new(value: AggregateValue) -> (r: Aggregate)
        ensures
            r.name() == value.name@,
            r.layers() == layer_models(value.layers@),
    {
        Aggregate { value }
    }

    fn get_value(&self) -> (r: &AggregateValue)
        ensures
            r.name@ == self.name(),
            layer_models(r.layers@) == self.layers(),
    {
        &self.value
    }

    /// Same name, and each layer has an equivalent layer in the other.
    fn is_equal(&self, other: &Aggregate) -> (r: bool)
        ensures
            r == (self.name() == other.name() && layers_covered(self.layers(), other.layers())
                && layers_covered(other.layers(), self.layers())),
    {
        if !self.value.name.is_equal(&other.value.name) {
            return false;
        }
        let a = &self.value.layers;
        let b = &other.value.layers;
        let mut i: usize = 0;
        while i < a.len()
            invariant
                i <= a.len(),
                a@ == self.value.layers@,
                b@ == other.value.layers@,
                covered_upto(layer_models(a@), layer_models(b@), i as int),
            decreases a.len() - i,
        {
            let found = Aggregate::has_equivalent(b, &a[i]);
            proof {
                assert(layer_models(a@)[i as int] == a@[i as int]@);
            }
            if !found {
                proof {
                    assert(!layers_covered(self.layers(), other.layers()));
                }
                return false;
            }
            i = i + 1;
        }
        let mut i: usize = 0;
        while i < b.len()
            invariant
                i <= b.len(),
                a@ == self.value.layers@,
                b@ == other.value.layers@,
                layers_covered(layer_models(a@), layer_models(b@)),
                covered_upto(layer_models(b@), layer_models(a@), i as int),
            decreases b.len() - i,
        {
            let found = Aggregate::has_equivalent(a, &b[i]);
            proof {
                assert(layer_models(b@)[i as int] == b@[i as int]@);
            }
            if !found {
                proof {
                    assert(!layers_covered(other.layers(), self.layers()));
                }
                return false;
            }
            i = i + 1;
        }
        true
    }
}

} // verus!
