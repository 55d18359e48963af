//! Initializers of local arrays and variables, as read before they become assignments.
use vstd::prelude::*;
use crate::node::Node;
use crate::typecell::{TypeCell, Type, spec_array_dim, products_fit, product, spec_flatten_size};

verus! {

/// An initializer: the expression for a scalar, or the initializers of the elements of an
/// array; `typ` is the type it initializes.
#[derive(Debug)]
pub struct Initializer {
    pub node: Option<Box<Node>>,
    pub typ: Option<TypeCell>,
    pub elements: Vec<Initializer>,
    pub is_literal: bool,
}

impl Default for Initializer {
    fn default() -> (r: Self)
        ensures
            r.node is None,
            r.typ is None,
            r.elements@.len() == 0,
            !r.is_literal,
    {
        Initializer { node: None, typ: None, elements: Vec::new(), is_literal: false }
    }
}

/// The number of elements of an array of unknown length that the initializer elements
/// `elems` fill, given `flat` scalar initializers per element (read from position `ix`).
pub open spec fn flex_count(elems: Seq<Initializer>, flat: nat, ix: int) -> nat
    decreases elems.len() - ix,
{
    if ix < 0 || ix >= elems.len() || flat == 0 {
        0
    } else if elems[ix].elements@.len() == 0 {
        if ix + flat >= elems.len() {
            1
        } else {
            1 + flex_count(elems, flat, ix + flat)
        }
    } else {
        1 + flex_count(elems, flat, ix + 1)
    }
}

impl Initializer {
    /// The initializer of a scalar of type `typ` with expression `node`.
    pub fn new(typ: TypeCell, node: Node) -> (r: Self)
        ensures
            r.node == Some(Box::new(node)),
            r.typ == Some(typ),
            r.elements@.len() == 0,
            !r.is_literal,
    {
        Initializer { node: Some(Box::new(node)), typ: Some(typ), elements: Vec::new(), is_literal: false }
    }

    /// Sets the type and the expression of this initializer.
    pub fn insert(&mut self, typ: TypeCell, node: Node)
        ensures
            final(self).typ == Some(typ),
            final(self).node == Some(Box::new(node)),
            final(self).elements == old(self).elements,
            final(self).is_literal == old(self).is_literal,
    {
        self.typ = Some(typ);
        self.node = Some(Box::new(node));
    }

    /// Adds `elem` as the next element.
    pub fn push_element(&mut self, elem: Initializer)
        ensures
            final(self).elements@ == old(self).elements@.push(elem),
            final(self).typ == old(self).typ,
            final(self).node == old(self).node,
    {
        self.elements.push(elem);
    }

    /// Adds the elements of `elem` as the next elements.
    pub fn append_elements(&mut self, elem: Initializer)
        ensures
            final(self).elements@ == old(self).elements@ + elem.elements@,
            final(self).typ == old(self).typ,
            final(self).node == old(self).node,
    {
        let mut e = elem;
        let ghost before = self.elements@;
        let ghost added = e.elements@;
        self.elements.append(&mut e.elements);
        proof {
            assert(self.elements@ =~= before + added);
        }
    }

    /// Whether this initializer has no elements (it initializes a scalar).
    pub fn is_element(&self) -> (r: bool)
        ensures
            r == (self.elements@.len() == 0),
    {
        self.elements.len() == 0
    }

    /// The length of an array of unknown length initialized by this initializer: scalar
    /// initializers fill one element per element size, braced ones one element each.
    pub fn flex_elem_count(&self) -> (r: usize)
        requires
            self.elements@.len() > 0,
            self.typ is Some,
            self.typ.unwrap().typ == Type::Array || self.typ.unwrap().typ == Type::Ptr,
            self.typ.unwrap().ptr_to is Some,
            products_fit(spec_array_dim(*self.typ.unwrap().ptr_to.unwrap()).0),
            spec_flatten_size(*self.typ.unwrap().ptr_to.unwrap()) > 0,
        ensures
            r == flex_count(
                self.elements@,
                spec_flatten_size(*self.typ.unwrap().ptr_to.unwrap()),
                0,
            ),
    {
        let typ = match &self.typ {
            Some(t) => t,
            None => {
                return 0;
            },
        };
        let elem_typ = match typ.make_deref() {
            Ok(t) => t,
            Err(_) => {
                return 0;
            },
        };
        let elem_flatten_size = elem_typ.flatten_size();
        let ghost flat = elem_flatten_size as nat;
        let mut count: usize = 0;
        let mut ix: usize = 0;
        while ix < self.elements.len()
            invariant
                flat > 0,
                flat == elem_flatten_size,
                self.typ is Some && self.typ.unwrap().ptr_to is Some,
                flat == spec_flatten_size(*self.typ.unwrap().ptr_to.unwrap()),
                count <= ix,
                ix <= self.elements@.len() + flat,
                count + flex_count(self.elements@, flat, ix as int) == flex_count(self.elements@, flat, 0),
            decreases self.elements@.len() + flat - ix,
        {
            let step = if self.elements[ix].is_element() {
                elem_flatten_size
            } else {
                1
            };
            if ix > usize::MAX - step {
                proof {
                    assert(self.elements@[ix as int].elements@.len() == 0);
                    assert(ix + flat >= self.elements@.len());
                    assert(flex_count(self.elements@, flat, ix as int) == 1);
                }
                return count + 1;
            }
            ix = ix + step;
            count = count + 1;
        }
        count
    }
}

} // verus!
