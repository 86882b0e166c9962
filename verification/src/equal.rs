//! Comparing tensors: the same layout over buffers of equal elements.
use vstd::prelude::*;
use vstd::std_specs::cmp::PartialEqSpec;
use crate::tensor::TensorBase;

verus! {

broadcast use crate::tensor::group_tensor_parts;

/// Whether two shapes are the same.
fn same_dims(a: &Vec<usize>, b: &Vec<usize>) -> (r: bool)
    ensures
        r == (a@ == b@),
{
    if a.len() != b.len() {
        return false;
    }
    let mut i: usize = 0;
    while i < a.len()
        invariant
            a@.len() == b@.len(),
            i <= a@.len(),
            forall|k: int| 0 <= k < i ==> a@[k] == b@[k],
        decreases a@.len() - i,
    {
        if a[i] != b[i] {
            return false;
        }
        i = i + 1;
    }
    assert(a@ =~= b@);
    true
}

/// Whether two stride vectors are the same.
fn same_steps(a: &Vec<isize>, b: &Vec<isize>) -> (r: bool)
    ensures
        r == (a@ == b@),
{
    if a.len() != b.len() {
        return false;
    }
    let mut i: usize = 0;
    while i < a.len()
        invariant
            a@.len() == b@.len(),
            i <= a@.len(),
            forall|k: int| 0 <= k < i ==> a@[k] == b@[k],
        decreases a@.len() - i,
    {
        if a[i] != b[i] {
            return false;
        }
        i = i + 1;
    }
    assert(a@ =~= b@);
    true
}

/// Two buffers hold elements that `==` finds equal, position by position.
pub open spec fn same_elements<T: PartialEq>(a: Seq<T>, b: Seq<T>) -> bool {
    &&& a.len() == b.len()
    &&& forall|i: int| 0 <= i < a.len() ==> a[i].eq_spec(&b[i])
}

impl<T: PartialEq> TensorBase<T> {
    /// Whether the two tensors have the same shape, strides and offset, and
    /// buffers whose elements are equal position by position (by `==` on
    /// the elements, which is all that is known of it when the element
    /// type's `==` has no specification).
    pub fn eq(&self, other: &Self) -> (b: bool)
        ensures
            b ==> self.spec_shape() == other.spec_shape() && self.spec_strides() == other.spec_strides()
                && self.spec_offset() == other.spec_offset() && self.data().len() == other.data().len(),
            T::obeys_eq_spec() ==> (b == (self.spec_shape() == other.spec_shape() && self.spec_strides()
                == other.spec_strides() && self.spec_offset() == other.spec_offset() && same_elements(
                self.data(),
                other.data(),
            ))),
    {
        if !same_dims(&self.meta.shape, &other.meta.shape) {
            return false;
        }
        if !same_steps(&self.meta.strides, &other.meta.strides) {
            return false;
        }
        if self.meta.offset != other.meta.offset {
            return false;
        }
        if self.buf.len() != other.buf.len() {
            return false;
        }
        let n = self.buf.len();
        let mut i: usize = 0;
        while i < n
            invariant
                n == self.data().len(),
                n == other.data().len(),
                i <= n,
                T::obeys_eq_spec() ==> forall|k: int| 0 <= k < i ==> self.data()[k].eq_spec(&other.data()[k]),
            decreases n - i,
        {
            if !(self.buf[i] == other.buf[i]) {
                return false;
            }
            i = i + 1;
        }
        true
    }
}

} // verus!
