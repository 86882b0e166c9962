//! Arithmetic between a tensor and a single value, in place or into a new
//! tensor; the value is applied to every element of the layout and the rest
//! of the buffer is left unchanged.
use vstd::prelude::*;
use crate::access::AsTensor;
use crate::unary::{difference_of, product_of, quotient_of, sum_of};
use crate::meta::{is_row_major, sizes_fit};
use crate::tensor::{TensorBase, TensorView, TensorViewMut};
use crate::unary::{difference_value, lemma_row_major_mapped, maps_all, maps_each, product_value, quotient_value, sum_value};

verus! {

broadcast use crate::tensor::group_tensor_parts;

impl<T> TensorBase<T> {
    /// Adds `v` to every element in place.
    pub fn add_scalar_inplace(&mut self, v: T)
        where T: Copy + num_traits::Float,
        requires
            old(self).wf(),
        ensures
            final(self).wf(),
            final(self).spec_shape() == old(self).spec_shape(),
            final(self).spec_strides() == old(self).spec_strides(),
            final(self).spec_offset() == old(self).spec_offset(),
            maps_each(old(self).data(), final(self).data(), old(self).spec_positions(), |a: T, b: T| sum_value(a, v, b)),
    {
        self.map_inplace(&|x: T| -> (y: T)
            ensures
                sum_value(x, v, y),
        {
            sum_of(x, v)
        });
    }

    /// A row-major copy with `v` added to every element.
    pub fn add_scalar(&self, v: T) -> (t: TensorBase<T>)
        where T: Copy + num_traits::Float,
        requires
            self.wf(),
            sizes_fit(self.spec_shape()),
        ensures
            t.wf(),
            t.spec_shape() == self.spec_shape(),
            is_row_major(t.spec_shape(), t.spec_strides()),
            maps_all(self.elems(), t.elems(), |a: T, b: T| sum_value(a, v, b)),
    {
        let mut t = self.contiguous();
        let ghost t0 = t;
        t.add_scalar_inplace(v);
        proof {
            lemma_row_major_mapped(t0, t, |a: T, b: T| sum_value(a, v, b));
        }
        t
    }

    /// Subtracts `v` from every element in place.
    pub fn sub_scalar_inplace(&mut self, v: T)
        where T: Copy + num_traits::Float,
        requires
            old(self).wf(),
        ensures
            final(self).wf(),
            final(self).spec_shape() == old(self).spec_shape(),
            final(self).spec_strides() == old(self).spec_strides(),
            final(self).spec_offset() == old(self).spec_offset(),
            maps_each(old(self).data(), final(self).data(), old(self).spec_positions(), |a: T, b: T| difference_value(a, v, b)),
    {
        self.map_inplace(&|x: T| -> (y: T)
            ensures
                difference_value(x, v, y),
        {
            difference_of(x, v)
        });
    }

    /// A row-major copy with `v` subtracted from every element.
    pub fn sub_scalar(&self, v: T) -> (t: TensorBase<T>)
        where T: Copy + num_traits::Float,
        requires
            self.wf(),
            sizes_fit(self.spec_shape()),
        ensures
            t.wf(),
            t.spec_shape() == self.spec_shape(),
            is_row_major(t.spec_shape(), t.spec_strides()),
            maps_all(self.elems(), t.elems(), |a: T, b: T| difference_value(a, v, b)),
    {
        let mut t = self.contiguous();
        let ghost t0 = t;
        t.sub_scalar_inplace(v);
        proof {
            lemma_row_major_mapped(t0, t, |a: T, b: T| difference_value(a, v, b));
        }
        t
    }

    /// Multiplies by `v` every element in place.
    pub fn mul_scalar_inplace(&mut self, v: T)
        where T: Copy + num_traits::Float,
        requires
            old(self).wf(),
        ensures
            final(self).wf(),
            final(self).spec_shape() == old(self).spec_shape(),
            final(self).spec_strides() == old(self).spec_strides(),
            final(self).spec_offset() == old(self).spec_offset(),
            maps_each(old(self).data(), final(self).data(), old(self).spec_positions(), |a: T, b: T| product_value(a, v, b)),
    {
        self.map_inplace(&|x: T| -> (y: T)
            ensures
                product_value(x, v, y),
        {
            product_of(x, v)
        });
    }

    /// A row-major copy with every element multiplied by `v`.
    pub fn mul_scalar(&self, v: T) -> (t: TensorBase<T>)
        where T: Copy + num_traits::Float,
        requires
            self.wf(),
            sizes_fit(self.spec_shape()),
        ensures
            t.wf(),
            t.spec_shape() == self.spec_shape(),
            is_row_major(t.spec_shape(), t.spec_strides()),
            maps_all(self.elems(), t.elems(), |a: T, b: T| product_value(a, v, b)),
    {
        let mut t = self.contiguous();
        let ghost t0 = t;
        t.mul_scalar_inplace(v);
        proof {
            lemma_row_major_mapped(t0, t, |a: T, b: T| product_value(a, v, b));
        }
        t
    }

    /// Divides by `v` every element in place.
    pub fn div_scalar_inplace(&mut self, v: T)
        where T: Copy + num_traits::Float,
        requires
            old(self).wf(),
        ensures
            final(self).wf(),
            final(self).spec_shape() == old(self).spec_shape(),
            final(self).spec_strides() == old(self).spec_strides(),
            final(self).spec_offset() == old(self).spec_offset(),
            maps_each(old(self).data(), final(self).data(), old(self).spec_positions(), |a: T, b: T| quotient_value(a, v, b)),
    {
        self.map_inplace(&|x: T| -> (y: T)
            ensures
                quotient_value(x, v, y),
        {
            quotient_of(x, v)
        });
    }

    /// A row-major copy with every element divided by `v`.
    pub fn div_scalar(&self, v: T) -> (t: TensorBase<T>)
        where T: Copy + num_traits::Float,
        requires
            self.wf(),
            sizes_fit(self.spec_shape()),
        ensures
            t.wf(),
            t.spec_shape() == self.spec_shape(),
            is_row_major(t.spec_shape(), t.spec_strides()),
            maps_all(self.elems(), t.elems(), |a: T, b: T| quotient_value(a, v, b)),
    {
        let mut t = self.contiguous();
        let ghost t0 = t;
        t.div_scalar_inplace(v);
        proof {
            lemma_row_major_mapped(t0, t, |a: T, b: T| quotient_value(a, v, b));
        }
        t
    }
}

impl<'a, T> TensorView<'a, T> {
    /// A row-major copy with `v` added to every element.
    pub fn add_scalar(&self, v: T) -> (t: TensorBase<T>)
        where T: Copy + num_traits::Float,
        requires
            sizes_fit(self.spec_shape()),
        ensures
            t.wf(),
            t.spec_shape() == self.spec_shape(),
            is_row_major(t.spec_shape(), t.spec_strides()),
            maps_all(self.elems(), t.elems(), |a: T, b: T| sum_value(a, v, b)),
    {
        let mut t = self.contiguous();
        let ghost t0 = t;
        t.add_scalar_inplace(v);
        proof {
            lemma_row_major_mapped(t0, t, |a: T, b: T| sum_value(a, v, b));
        }
        t
    }

    /// A row-major copy with `v` subtracted from every element.
    pub fn sub_scalar(&self, v: T) -> (t: TensorBase<T>)
        where T: Copy + num_traits::Float,
        requires
            sizes_fit(self.spec_shape()),
        ensures
            t.wf(),
            t.spec_shape() == self.spec_shape(),
            is_row_major(t.spec_shape(), t.spec_strides()),
            maps_all(self.elems(), t.elems(), |a: T, b: T| difference_value(a, v, b)),
    {
        let mut t = self.contiguous();
        let ghost t0 = t;
        t.sub_scalar_inplace(v);
        proof {
            lemma_row_major_mapped(t0, t, |a: T, b: T| difference_value(a, v, b));
        }
        t
    }

    /// A row-major copy with every element multiplied by `v`.
    pub fn mul_scalar(&self, v: T) -> (t: TensorBase<T>)
        where T: Copy + num_traits::Float,
        requires
            sizes_fit(self.spec_shape()),
        ensures
            t.wf(),
            t.spec_shape() == self.spec_shape(),
            is_row_major(t.spec_shape(), t.spec_strides()),
            maps_all(self.elems(), t.elems(), |a: T, b: T| product_value(a, v, b)),
    {
        let mut t = self.contiguous();
        let ghost t0 = t;
        t.mul_scalar_inplace(v);
        proof {
            lemma_row_major_mapped(t0, t, |a: T, b: T| product_value(a, v, b));
        }
        t
    }

    /// A row-major copy with every element divided by `v`.
    pub fn div_scalar(&self, v: T) -> (t: TensorBase<T>)
        where T: Copy + num_traits::Float,
        requires
            sizes_fit(self.spec_shape()),
        ensures
            t.wf(),
            t.spec_shape() == self.spec_shape(),
            is_row_major(t.spec_shape(), t.spec_strides()),
            maps_all(self.elems(), t.elems(), |a: T, b: T| quotient_value(a, v, b)),
    {
        let mut t = self.contiguous();
        let ghost t0 = t;
        t.div_scalar_inplace(v);
        proof {
            lemma_row_major_mapped(t0, t, |a: T, b: T| quotient_value(a, v, b));
        }
        t
    }
}

impl<'a, T> TensorViewMut<'a, T> {
    /// Adds `v` to every element in place.
    pub fn add_scalar_inplace(&mut self, v: T)
        where T: Copy + num_traits::Float,
        requires
            old(self).wf(),
        ensures
            final(self).wf(),
            final(self).spec_shape() == old(self).spec_shape(),
            final(self).spec_strides() == old(self).spec_strides(),
            final(self).spec_offset() == old(self).spec_offset(),
            maps_each(old(self).data(), final(self).data(), old(self).spec_positions(), |a: T, b: T| sum_value(a, v, b)),
    {
        self.map_inplace(&|x: T| -> (y: T)
            ensures
                sum_value(x, v, y),
        {
            sum_of(x, v)
        });
    }

    /// A row-major copy with `v` added to every element.
    pub fn add_scalar(&self, v: T) -> (t: TensorBase<T>)
        where T: Copy + num_traits::Float,
        requires
            self.wf(),
            sizes_fit(self.spec_shape()),
        ensures
            t.wf(),
            t.spec_shape() == self.spec_shape(),
            is_row_major(t.spec_shape(), t.spec_strides()),
            maps_all(self.elems(), t.elems(), |a: T, b: T| sum_value(a, v, b)),
    {
        let mut t = self.contiguous();
        let ghost t0 = t;
        t.add_scalar_inplace(v);
        proof {
            lemma_row_major_mapped(t0, t, |a: T, b: T| sum_value(a, v, b));
        }
        t
    }

    /// Subtracts `v` from every element in place.
    pub fn sub_scalar_inplace(&mut self, v: T)
        where T: Copy + num_traits::Float,
        requires
            old(self).wf(),
        ensures
            final(self).wf(),
            final(self).spec_shape() == old(self).spec_shape(),
            final(self).spec_strides() == old(self).spec_strides(),
            final(self).spec_offset() == old(self).spec_offset(),
            maps_each(old(self).data(), final(self).data(), old(self).spec_positions(), |a: T, b: T| difference_value(a, v, b)),
    {
        self.map_inplace(&|x: T| -> (y: T)
            ensures
                difference_value(x, v, y),
        {
            difference_of(x, v)
        });
    }

    /// A row-major copy with `v` subtracted from every element.
    pub fn sub_scalar(&self, v: T) -> (t: TensorBase<T>)
        where T: Copy + num_traits::Float,
        requires
            self.wf(),
            sizes_fit(self.spec_shape()),
        ensures
            t.wf(),
            t.spec_shape() == self.spec_shape(),
            is_row_major(t.spec_shape(), t.spec_strides()),
            maps_all(self.elems(), t.elems(), |a: T, b: T| difference_value(a, v, b)),
    {
        let mut t = self.contiguous();
        let ghost t0 = t;
        t.sub_scalar_inplace(v);
        proof {
            lemma_row_major_mapped(t0, t, |a: T, b: T| difference_value(a, v, b));
        }
        t
    }

    /// Multiplies by `v` every element in place.
    pub fn mul_scalar_inplace(&mut self, v: T)
        where T: Copy + num_traits::Float,
        requires
            old(self).wf(),
        ensures
            final(self).wf(),
            final(self).spec_shape() == old(self).spec_shape(),
            final(self).spec_strides() == old(self).spec_strides(),
            final(self).spec_offset() == old(self).spec_offset(),
            maps_each(old(self).data(), final(self).data(), old(self).spec_positions(), |a: T, b: T| product_value(a, v, b)),
    {
        self.map_inplace(&|x: T| -> (y: T)
            ensures
                product_value(x, v, y),
        {
            product_of(x, v)
        });
    }

    /// A row-major copy with every element multiplied by `v`.
    pub fn mul_scalar(&self, v: T) -> (t: TensorBase<T>)
        where T: Copy + num_traits::Float,
        requires
            self.wf(),
            sizes_fit(self.spec_shape()),
        ensures
            t.wf(),
            t.spec_shape() == self.spec_shape(),
            is_row_major(t.spec_shape(), t.spec_strides()),
            maps_all(self.elems(), t.elems(), |a: T, b: T| product_value(a, v, b)),
    {
        let mut t = self.contiguous();
        let ghost t0 = t;
        t.mul_scalar_inplace(v);
        proof {
            lemma_row_major_mapped(t0, t, |a: T, b: T| product_value(a, v, b));
        }
        t
    }

    /// Divides by `v` every element in place.
    pub fn div_scalar_inplace(&mut self, v: T)
        where T: Copy + num_traits::Float,
        requires
            old(self).wf(),
        ensures
            final(self).wf(),
            final(self).spec_shape() == old(self).spec_shape(),
            final(self).spec_strides() == old(self).spec_strides(),
            final(self).spec_offset() == old(self).spec_offset(),
            maps_each(old(self).data(), final(self).data(), old(self).spec_positions(), |a: T, b: T| quotient_value(a, v, b)),
    {
        self.map_inplace(&|x: T| -> (y: T)
            ensures
                quotient_value(x, v, y),
        {
            quotient_of(x, v)
        });
    }

    /// A row-major copy with every element divided by `v`.
    pub fn div_scalar(&self, v: T) -> (t: TensorBase<T>)
        where T: Copy + num_traits::Float,
        requires
            self.wf(),
            sizes_fit(self.spec_shape()),
        ensures
            t.wf(),
            t.spec_shape() == self.spec_shape(),
            is_row_major(t.spec_shape(), t.spec_strides()),
            maps_all(self.elems(), t.elems(), |a: T, b: T| quotient_value(a, v, b)),
    {
        let mut t = self.contiguous();
        let ghost t0 = t;
        t.div_scalar_inplace(v);
        proof {
            lemma_row_major_mapped(t0, t, |a: T, b: T| quotient_value(a, v, b));
        }
        t
    }
}

} // verus!
