//! Types of C expressions: `int`, `char`, pointers, arrays and functions.
use vstd::prelude::*;

verus! {

/// The kind of a type.
#[derive(Clone, Copy, Debug, PartialEq, Eq, Structural)]
pub enum Type {
    Invalid,
    Int,
    Char,
    Ptr,
    Func,
    Array,
}

/// Whether a value of this kind has a size of its own.
pub open spec fn sized(t: Type) -> bool {
    t == Type::Char || t == Type::Int || t == Type::Ptr
}

/// The size in bytes of a value of a sized kind.
pub open spec fn type_bytes(t: Type) -> nat {
    match t {
        Type::Char => 1,
        Type::Int => 4,
        _ => 8,
    }
}

impl Type {
    /// The size in bytes of a value of this kind; only `char`, `int` and pointers have one.
    pub fn bytes(&self) -> (r: usize)
        requires
            sized(*self),
        ensures
            r == type_bytes(*self),
    {
        match self {
            Type::Char => 1,
            Type::Int => 4,
            _ => 8,
        }
    }

    /// The name of this kind, as error messages print it.
    pub fn name(&self) -> (r: &'static str)
        ensures
            r@ == kind_name(*self),
    {
        proof {
            reveal_strlit("invalid");
            reveal_strlit("char");
            reveal_strlit("int");
            reveal_strlit("pointer");
            reveal_strlit("array");
            reveal_strlit("function");
        }
        match self {
            Type::Invalid => "invalid",
            Type::Char => "char",
            Type::Int => "int",
            Type::Ptr => "pointer",
            Type::Array => "array",
            Type::Func => "function",
        }
    }
}

/// The name of a kind of type.
pub open spec fn kind_name(t: Type) -> Seq<char> {
    match t {
        Type::Invalid => seq!['i', 'n', 'v', 'a', 'l', 'i', 'd'],
        Type::Char => seq!['c', 'h', 'a', 'r'],
        Type::Int => seq!['i', 'n', 't'],
        Type::Ptr => seq!['p', 'o', 'i', 'n', 't', 'e', 'r'],
        Type::Array => seq!['a', 'r', 'r', 'a', 'y'],
        Type::Func => seq!['f', 'u', 'n', 'c', 't', 'i', 'o', 'n'],
    }
}

/// The machine representation of a value, used to choose a conversion.
#[derive(Clone, Copy, Debug, PartialEq, Eq, Structural)]
pub enum RawType {
    I8,
    I32,
    U64,
}

/// The row (and column) of a raw type in the conversion table.
pub open spec fn raw_index(r: RawType) -> nat {
    match r {
        RawType::I8 => 0,
        RawType::I32 => 1,
        RawType::U64 => 2,
    }
}

/// The machine representation of a kind of value.
pub open spec fn spec_raw_type(t: Type) -> RawType {
    match t {
        Type::Char => RawType::I8,
        Type::Int => RawType::I32,
        _ => RawType::U64,
    }
}

/// A type. Pointers and arrays keep the type they refer to in `ptr_to`, the number of
/// pointer or array levels in `chains` and the innermost kind in `ptr_end`; arrays keep their
/// length in `array_size`; functions keep their return and argument types.
#[derive(Debug)]
pub struct TypeCell {
    pub typ: Type,
    pub ptr_to: Option<Box<TypeCell>>,
    pub ptr_end: Option<Type>,
    pub chains: usize,
    pub array_size: Option<usize>,
    pub ret_typ: Option<Box<TypeCell>>,
    pub arg_typs: Option<TypeList>,
    pub is_unsigned: bool,
}

/// A list of types (the argument types of a function), first argument first.
#[derive(Debug)]
pub enum TypeList {
    Nil,
    Cons(Box<TypeCell>, Box<TypeList>),
}

/// The types of a list, in order.
pub open spec fn list_seq(l: TypeList) -> Seq<TypeCell>
    decreases l,
{
    match l {
        TypeList::Nil => Seq::empty(),
        TypeList::Cons(h, t) => seq![*h] + list_seq(*t),
    }
}

/// Element-wise `type_eq` of two lists.
pub open spec fn list_eq(a: TypeList, b: TypeList) -> bool
    decreases a,
{
    match (a, b) {
        (TypeList::Nil, TypeList::Nil) => true,
        (TypeList::Cons(x, xs), TypeList::Cons(y, ys)) => type_eq(*x, *y) && list_eq(*xs, *ys),
        _ => false,
    }
}

impl TypeList {
    /// The number of types in the list.
    pub fn len(&self) -> (r: usize)
        requires
            list_seq(*self).len() <= usize::MAX,
        ensures
            r == list_seq(*self).len(),
        decreases self,
    {
        match self {
            TypeList::Nil => 0,
            TypeList::Cons(_, t) => 1 + t.len(),
        }
    }

    /// The list with `t` added at the end.
    pub fn push(self, t: TypeCell) -> (r: TypeList)
        ensures
            list_seq(r) == list_seq(self).push(t),
        decreases self,
    {
        match self {
            TypeList::Nil => {
                let r = TypeList::Cons(Box::new(t), Box::new(TypeList::Nil));
                proof {
                    assert(list_seq(r) =~= list_seq(self).push(t));
                }
                r
            },
            TypeList::Cons(h, tl) => {
                let rest = (*tl).push(t);
                let r = TypeList::Cons(h, Box::new(rest));
                proof {
                    assert(list_seq(r) =~= list_seq(self).push(t));
                }
                r
            },
        }
    }

    /// The number of types in the list.
    pub fn count(&self) -> (r: usize)
        ensures
            r == list_seq(*self).len() || list_seq(*self).len() > usize::MAX,
        decreases self,
    {
        match self {
            TypeList::Nil => 0,
            TypeList::Cons(_, t) => {
                let n = t.count();
                if n == usize::MAX {
                    n
                } else {
                    n + 1
                }
            },
        }
    }

    /// A copy of this list.
    pub fn copy(&self) -> (r: Self)
        ensures
            r == *self,
        decreases self,
    {
        match self {
            TypeList::Nil => TypeList::Nil,
            TypeList::Cons(h, t) => TypeList::Cons(Box::new((**h).copy()), Box::new((**t).copy())),
        }
    }
}

/// The cell for a plain kind.
pub open spec fn spec_new(typ: Type) -> TypeCell {
    TypeCell {
        typ,
        ptr_to: None,
        ptr_end: None,
        chains: 0,
        array_size: None,
        ret_typ: None,
        arg_typs: None,
        is_unsigned: typ == Type::Func || typ == Type::Ptr,
    }
}

/// The cell that `default` gives.
pub open spec fn spec_default() -> TypeCell {
    TypeCell {
        typ: Type::Invalid,
        ptr_to: None,
        ptr_end: None,
        chains: 0,
        array_size: None,
        ret_typ: None,
        arg_typs: None,
        is_unsigned: false,
    }
}

/// A pointer to `t`.
pub open spec fn spec_ptr_to(t: TypeCell) -> TypeCell {
    TypeCell {
        typ: Type::Ptr,
        ptr_to: Some(Box::new(t)),
        ptr_end: Some(
            if t.ptr_end is Some {
                t.ptr_end.unwrap()
            } else {
                t.typ
            },
        ),
        chains: (t.chains + 1) as usize,
        array_size: None,
        ret_typ: None,
        arg_typs: None,
        is_unsigned: false,
    }
}

/// An array of `size` elements of type `t`.
pub open spec fn spec_array_of(t: TypeCell, size: usize) -> TypeCell {
    TypeCell {
        typ: Type::Array,
        ptr_to: Some(Box::new(t)),
        ptr_end: if t.typ == Type::Array {
            t.ptr_end
        } else {
            Some(t.typ)
        },
        chains: (t.chains + 1) as usize,
        array_size: Some(size),
        ret_typ: None,
        arg_typs: None,
        is_unsigned: false,
    }
}

/// The lengths of the array levels of `t`, outermost first, and the type of its elements
/// below the last array level.
pub open spec fn spec_array_dim(t: TypeCell) -> (Seq<usize>, TypeCell)
    decreases t,
{
    if t.array_size is Some && t.ptr_to is Some {
        let (d, b) = spec_array_dim(*t.ptr_to.unwrap());
        (seq![t.array_size.unwrap()] + d, b)
    } else {
        (Seq::empty(), t)
    }
}

/// The product of a sequence of lengths.
pub open spec fn product(s: Seq<usize>) -> nat
    decreases s.len(),
{
    if s.len() == 0 {
        1
    } else {
        product(s.drop_last()) * (s.last() as nat)
    }
}

/// Every running product of `s`, from the left, fits in a `usize`.
pub open spec fn products_fit(s: Seq<usize>) -> bool {
    forall|k: int| 0 <= k <= s.len() ==> #[trigger] product(s.take(k)) <= usize::MAX
}

/// The number of elements below every array level of `t`.
pub open spec fn spec_flatten_size(t: TypeCell) -> nat {
    product(spec_array_dim(t).0)
}

/// The size in bytes of a value of type `t` (arrays: element size times element count).
pub open spec fn spec_bytes(t: TypeCell) -> nat {
    if t.typ == Type::Array {
        type_bytes(spec_array_dim(t).1.typ) * spec_flatten_size(t)
    } else {
        type_bytes(t.typ)
    }
}

/// The types of which `bytes` is defined (and fits in a `usize`).
pub open spec fn has_bytes(t: TypeCell) -> bool {
    if t.typ == Type::Array {
        &&& sized(spec_array_dim(t).1.typ)
        &&& products_fit(spec_array_dim(t).0)
        &&& spec_bytes(t) <= usize::MAX
    } else {
        sized(t.typ)
    }
}

/// Equality of types as the compiler sees it: two pointers or arrays are equal when both
/// have the same number of levels and the same type at the end of the levels (so an array
/// equals a pointer to its elements); other types when their kinds, return types and
/// argument types are equal.
pub open spec fn type_eq(a: TypeCell, b: TypeCell) -> bool
    decreases a,
{
    if a.ptr_end is Some {
        b.ptr_end is Some && a.chains == b.chains && a.ptr_end == b.ptr_end
    } else {
        &&& a.typ == b.typ
        &&& match (a.ret_typ, b.ret_typ) {
            (None, None) => true,
            (Some(x), Some(y)) => type_eq(*x, *y),
            _ => false,
        }
        &&& match (a.arg_typs, b.arg_typs) {
            (None, None) => true,
            (Some(xs), Some(ys)) => list_eq(xs, ys),
            _ => false,
        }
    }
}

impl TypeCell {
    /// The cell for a plain kind (pointers and functions are unsigned).
    pub fn new(typ: Type) -> (r: Self)
        ensures
            r == spec_new(typ),
    {
        let is_unsigned = match typ {
            Type::Func | Type::Ptr => true,
            _ => false,
        };
        TypeCell {
            typ,
            ptr_to: None,
            ptr_end: None,
            chains: 0,
            array_size: None,
            ret_typ: None,
            arg_typs: None,
            is_unsigned,
        }
    }

    /// A copy of this type.
    pub fn copy(&self) -> (r: Self)
        ensures
            r == *self,
        decreases self,
    {
        let ptr_to = match &self.ptr_to {
            Some(b) => Some(Box::new((**b).copy())),
            None => None,
        };
        let ret_typ = match &self.ret_typ {
            Some(b) => Some(Box::new((**b).copy())),
            None => None,
        };
        let arg_typs = match &self.arg_typs {
            Some(l) => Some(l.copy()),
            None => None,
        };
        TypeCell {
            typ: self.typ,
            ptr_to,
            ptr_end: self.ptr_end,
            chains: self.chains,
            array_size: self.array_size,
            ret_typ,
            arg_typs,
            is_unsigned: self.is_unsigned,
        }
    }

    /// Whether this is an array type.
    pub fn is_array(&self) -> (r: bool)
        ensures
            r == (self.typ == Type::Array),
    {
        self.typ == Type::Array
    }

    /// Whether this is not an array type.
    pub fn is_non_array(&self) -> (r: bool)
        ensures
            r == (self.typ != Type::Array),
    {
        self.typ != Type::Array
    }

    /// Whether the kind of this type is one of `types`.
    pub fn is_one_of(&self, types: &[Type]) -> (r: bool)
        ensures
            r == types@.contains(self.typ),
    {
        let mut i: usize = 0;
        while i < types.len()
            invariant
                i <= types@.len(),
                forall|k: int| 0 <= k < i ==> types@[k] != self.typ,
            decreases types.len() - i,
        {
            if types[i] == self.typ {
                return true;
            }
            i = i + 1;
        }
        false
    }

    /// Whether this is a pointer type.
    pub fn is_pointer(&self) -> (r: bool)
        ensures
            r == (self.typ == Type::Ptr),
    {
        self.typ == Type::Ptr
    }

    /// A pointer to this type.
    pub fn make_ptr_to(&self) -> (r: Self)
        requires
            self.chains < usize::MAX,
        ensures
            r == spec_ptr_to(*self),
    {
        let ptr_to = Some(Box::new(self.copy()));
        let ptr_end = Some(
            if let Some(end) = self.ptr_end {
                end
            } else {
                self.typ
            },
        );
        let chains = self.chains + 1;
        TypeCell {
            typ: Type::Ptr,
            ptr_to,
            ptr_end,
            chains,
            array_size: None,
            ret_typ: None,
            arg_typs: None,
            is_unsigned: false,
        }
    }
}


/// The function type with return type `ret` and argument types `args`.
pub open spec fn spec_func(ret: TypeCell, args: TypeList) -> TypeCell {
    TypeCell {
        typ: Type::Func,
        ptr_to: None,
        ptr_end: None,
        chains: 0,
        array_size: None,
        ret_typ: Some(Box::new(ret)),
        arg_typs: Some(args),
        is_unsigned: false,
    }
}

impl TypeCell {
    /// An array of `size` elements of this type.
    pub fn make_array_of(&self, size: usize) -> (r: Self)
        requires
            self.chains < usize::MAX,
        ensures
            r == spec_array_of(*self, size),
    {
        let array_of = Some(Box::new(self.copy()));
        let ptr_end = if self.typ == Type::Array {
            self.ptr_end
        } else {
            Some(self.typ)
        };
        let chains = self.chains + 1;
        TypeCell {
            typ: Type::Array,
            ptr_to: array_of,
            ptr_end,
            chains,
            array_size: Some(size),
            ret_typ: None,
            arg_typs: None,
            is_unsigned: false,
        }
    }

    /// The lengths of the array levels, outermost first, and the element type below them.
    pub fn array_dim(&self) -> (r: (Vec<usize>, Self))
        ensures
            r.0@ == spec_array_dim(*self).0,
            r.1 == spec_array_dim(*self).1,
        decreases self,
    {
        if let Some(size) = self.array_size {
            if let Some(element) = &self.ptr_to {
                let (mut dim, typ) = (**element).array_dim();
                dim.insert(0, size);
                proof {
                    assert(dim@ =~= seq![size] + spec_array_dim(**element).0);
                }
                return (dim, typ);
            }
        }
        (Vec::new(), self.copy())
    }

    /// The type this pointer or array refers to; `Err` for other kinds.
    pub fn make_deref(&self) -> (r: Result<Self, ()>)
        requires
            (self.typ == Type::Array || self.typ == Type::Ptr) ==> self.ptr_to is Some,
        ensures
            (self.typ == Type::Array || self.typ == Type::Ptr) ==> r == Ok::<TypeCell, ()>(
                *self.ptr_to.unwrap(),
            ),
            !(self.typ == Type::Array || self.typ == Type::Ptr) ==> r is Err,
    {
        if self.typ == Type::Array || self.typ == Type::Ptr {
            match &self.ptr_to {
                Some(b) => Ok((**b).copy()),
                None => Err(()),
            }
        } else {
            Err(())
        }
    }

    /// The cell of the innermost kind of a pointer or array.
    pub fn get_base_cell(&self) -> (r: Self)
        requires
            self.ptr_end is Some,
        ensures
            r == spec_new(self.ptr_end.unwrap()),
    {
        match self.ptr_end {
            Some(t) => Self::new(t),
            None => Self::new(Type::Invalid),
        }
    }

    /// The function type returning `ret_typ` and taking `arg_typs`.
    pub fn make_func(ret_typ: Self, arg_typs: TypeList) -> (r: Self)
        ensures
            r == spec_func(ret_typ, arg_typs),
    {
        TypeCell {
            typ: Type::Func,
            ptr_to: None,
            ptr_end: None,
            chains: 0,
            array_size: None,
            ret_typ: Some(Box::new(ret_typ)),
            arg_typs: Some(arg_typs),
            is_unsigned: false,
        }
    }

    /// The number of elements below every array level (1 for a non-array).
    pub fn flatten_size(&self) -> (r: usize)
        requires
            products_fit(spec_array_dim(*self).0),
        ensures
            r == spec_flatten_size(*self),
    {
        let (dim, _) = self.array_dim();
        product_of(&dim)
    }

    /// Whether this is a one-dimensional array of `char`.
    pub fn is_char_1d_array(&self) -> (r: bool)
        requires
            self.typ == Type::Array ==> self.ptr_to is Some,
        ensures
            r == (self.typ == Type::Array && self.ptr_to.unwrap().typ == Type::Char),
    {
        if self.typ == Type::Array {
            match &self.ptr_to {
                Some(b) => b.typ == Type::Char,
                None => false,
            }
        } else {
            false
        }
    }

    /// The size in bytes of a value of this type.
    pub fn bytes(&self) -> (r: usize)
        requires
            has_bytes(*self),
        ensures
            r == spec_bytes(*self),
    {
        if self.typ == Type::Array {
            let (dim, typ) = self.array_dim();
            let p = product_of(&dim);
            let b = typ.typ.bytes();
            proof {
                assert(b * p == spec_bytes(*self));
            }
            b * p
        } else {
            self.typ.bytes()
        }
    }

    /// The innermost array level of this type (an array of its element type), if any.
    pub fn get_last_level_array(&self) -> (r: Option<TypeCell>)
        requires
            spec_array_dim(*self).1.chains < usize::MAX,
        ensures
            spec_array_dim(*self).0.len() == 0 ==> r is None,
            spec_array_dim(*self).0.len() > 0 ==> r == Some(
                spec_array_of(spec_array_dim(*self).1, spec_array_dim(*self).0.last()),
            ),
    {
        let (dim, typ) = self.array_dim();
        if dim.len() > 0 {
            Some(typ.make_array_of(dim[dim.len() - 1]))
        } else {
            None
        }
    }
}

/// The product of `dim`, computed from the left.
pub fn product_of(dim: &Vec<usize>) -> (r: usize)
    requires
        products_fit(dim@),
    ensures
        r == product(dim@),
{
    let mut p: usize = 1;
    let mut i: usize = 0;
    proof {
        assert(dim@.take(0) =~= Seq::<usize>::empty());
    }
    while i < dim.len()
        invariant
            i <= dim@.len(),
            products_fit(dim@),
            p == product(dim@.take(i as int)),
        decreases dim.len() - i,
    {
        proof {
            assert(dim@.take(i + 1).drop_last() =~= dim@.take(i as int));
            assert(product(dim@.take(i + 1)) <= usize::MAX);
        }
        p = p * dim[i];
        i = i + 1;
    }
    proof {
        assert(dim@.take(dim@.len() as int) =~= dim@);
    }
    p
}

impl Default for TypeCell {
    fn default() -> (r: Self)
        ensures
            r == spec_default(),
    {
        TypeCell {
            typ: Type::Invalid,
            ptr_to: None,
            ptr_end: None,
            chains: 0,
            array_size: None,
            ret_typ: None,
            arg_typs: None,
            is_unsigned: false,
        }
    }
}

/// Compares two types as `type_eq` says.
pub fn type_cell_eq(a: &TypeCell, b: &TypeCell) -> (r: bool)
    ensures
        r == type_eq(*a, *b),
    decreases a,
{
    match (&a.ptr_end, &b.ptr_end) {
        (Some(x), Some(y)) => {
            return a.chains == b.chains && *x == *y;
        },
        (Some(_), None) => {
            return false;
        },
        _ => {},
    }
    if a.typ != b.typ {
        return false;
    }
    let rets = match (&a.ret_typ, &b.ret_typ) {
        (None, None) => true,
        (Some(x), Some(y)) => type_cell_eq(x, y),
        _ => false,
    };
    if !rets {
        return false;
    }
    match (&a.arg_typs, &b.arg_typs) {
        (None, None) => true,
        (Some(xs), Some(ys)) => type_list_eq(xs, ys),
        _ => false,
    }
}

/// Compares two lists of types element-wise.
pub fn type_list_eq(a: &TypeList, b: &TypeList) -> (r: bool)
    ensures
        r == list_eq(*a, *b),
    decreases a,
{
    match (a, b) {
        (TypeList::Nil, TypeList::Nil) => true,
        (TypeList::Cons(x, xs), TypeList::Cons(y, ys)) => {
            if type_cell_eq(x, y) {
                type_list_eq(xs, ys)
            } else {
                false
            }
        },
        _ => false,
    }
}

impl PartialEq for TypeCell {
    fn eq(&self, other: &Self) -> (r: bool) {
        type_cell_eq(self, other)
    }
}

impl vstd::std_specs::cmp::PartialEqSpecImpl for TypeCell {
    open spec fn obeys_eq_spec() -> bool {
        true
    }

    open spec fn eq_spec(&self, other: &Self) -> bool {
        type_eq(*self, *other)
    }
}

/// The type of the result of an arithmetic operation on `left` and `right`: a pointer to the
/// type that the left (else the right) operand refers to, or `int`.
pub open spec fn spec_common_type(left: TypeCell, right: TypeCell) -> TypeCell {
    if left.ptr_to is Some {
        spec_ptr_to(*left.ptr_to.unwrap())
    } else if right.ptr_to is Some {
        spec_ptr_to(*right.ptr_to.unwrap())
    } else {
        spec_new(Type::Int)
    }
}

/// The type that an arithmetic operation on `left_typ` and `right_typ` converts both to.
pub fn get_common_type(left_typ: TypeCell, right_typ: TypeCell) -> (r: TypeCell)
    requires
        left_typ.ptr_to is Some ==> left_typ.ptr_to.unwrap().chains < usize::MAX,
        right_typ.ptr_to is Some ==> right_typ.ptr_to.unwrap().chains < usize::MAX,
    ensures
        r == spec_common_type(left_typ, right_typ),
{
    if let Some(t) = &left_typ.ptr_to {
        t.make_ptr_to()
    } else if let Some(t) = &right_typ.ptr_to {
        t.make_ptr_to()
    } else {
        TypeCell::new(Type::Int)
    }
}

/// The machine representation of a kind of value; it has none for `invalid`.
pub fn get_raw_type(typ: Type) -> (r: RawType)
    requires
        typ != Type::Invalid,
    ensures
        r == spec_raw_type(typ),
{
    match typ {
        Type::Char => RawType::I8,
        Type::Int => RawType::I32,
        _ => RawType::U64,
    }
}

/// The row of a raw type in the conversion table.
pub fn raw_type_index(r: RawType) -> (i: usize)
    ensures
        i == raw_index(r),
{
    match r {
        RawType::I8 => 0,
        RawType::I32 => 1,
        RawType::U64 => 2,
    }
}


/// The product of `dim`, computed from the left, if every running product fits.
pub fn product_checked(dim: &Vec<usize>) -> (r: Option<usize>)
    ensures
        products_fit(dim@) ==> r == Some(product(dim@) as usize),
        !products_fit(dim@) ==> r is None,
{
    let mut p: usize = 1;
    let mut i: usize = 0;
    proof {
        assert(dim@.take(0) =~= Seq::<usize>::empty());
    }
    while i < dim.len()
        invariant
            i <= dim@.len(),
            p == product(dim@.take(i as int)),
            forall|k: int| 0 <= k <= i ==> #[trigger] product(dim@.take(k)) <= usize::MAX,
        decreases dim.len() - i,
    {
        proof {
            assert(dim@.take(i + 1).drop_last() =~= dim@.take(i as int));
        }
        let d = dim[i];
        if d != 0 && p > usize::MAX / d {
            proof {
                assert(p * d > usize::MAX) by (nonlinear_arith)
                    requires
                        d != 0,
                        p > usize::MAX / d,
                ;
                assert(product(dim@.take(i + 1)) > usize::MAX);
            }
            return None;
        }
        proof {
            assert(p * d <= usize::MAX) by (nonlinear_arith)
                requires
                    d == 0 || p <= usize::MAX / d,
            ;
        }
        p = p * d;
        i = i + 1;
        proof {
            assert forall|k: int| 0 <= k <= i implies #[trigger] product(dim@.take(k)) <= usize::MAX by {
                if k == i {
                } else {
                }
            }
        }
    }
    proof {
        assert(dim@.take(dim@.len() as int) =~= dim@);
    }
    Some(p)
}

impl TypeCell {
    /// The size in bytes of a value of this type, if it has one that fits in a `usize`.
    pub fn try_bytes(&self) -> (r: Option<usize>)
        ensures
            has_bytes(*self) ==> r == Some(spec_bytes(*self) as usize),
            !has_bytes(*self) ==> r is None,
    {
        if self.typ == Type::Array {
            let (dim, typ) = self.array_dim();
            let b = typ.typ;
            proof {
                assert(spec_flatten_size(*self) == product(dim@));
                assert(spec_bytes(*self) == type_bytes(b) * product(dim@));
            }
            if !(b == Type::Char || b == Type::Int || b == Type::Ptr) {
                return None;
            }
            match product_checked(&dim) {
                None => None,
                Some(p) => {
                    proof {
                        assert(dim@.take(dim@.len() as int) =~= dim@);
                        assert(product(dim@.take(dim@.len() as int)) <= usize::MAX);
                    }
                    let bb = b.bytes();
                    if p != 0 && bb > usize::MAX / p {
                        proof {
                            assert(bb * p > usize::MAX) by (nonlinear_arith)
                                requires
                                    p != 0,
                                    bb > usize::MAX / p,
                            ;
                        }
                        None
                    } else {
                        proof {
                            assert(bb * p <= usize::MAX) by (nonlinear_arith)
                                requires
                                    p == 0 || bb <= usize::MAX / p,
                            ;
                        }
                        assert(sized(spec_array_dim(*self).1.typ));
                        assert(products_fit(spec_array_dim(*self).0));
                        assert(has_bytes(*self));
                        Some(bb * p)
                    }
                },
            }
        } else if self.typ == Type::Char || self.typ == Type::Int || self.typ == Type::Ptr {
            assert(has_bytes(*self));
            Some(self.typ.bytes())
        } else {
            None
        }
    }
}


/// The text of type `t` as error messages show it, with `s` written at the place of the
/// declared name: `int`, `char*`, `int x[3][4]`, `int (*)[4]`, `int __func(int, char*)`.
pub open spec fn spec_type_string(t: TypeCell, s: Seq<char>) -> Seq<char>
    decreases t,
{
    match t.ptr_to {
        Some(deref) => {
            let inner = if t.typ == Type::Array {
                s + "["@ + (if t.array_size is Some {
                    crate::utils::decimal(t.array_size.unwrap() as nat)
                } else {
                    Seq::empty()
                }) + "]"@
            } else if deref.typ == Type::Array {
                " ("@ + s + "*)"@
            } else {
                "*"@ + s
            };
            spec_type_string(*deref, inner)
        },
        None => {
            if t.typ == Type::Func {
                (if t.ret_typ is Some {
                    spec_type_string(*t.ret_typ.unwrap(), Seq::empty())
                } else {
                    Seq::empty()
                }) + " __func("@ + (if t.arg_typs is Some {
                    spec_list_string(t.arg_typs.unwrap(), true)
                } else {
                    Seq::empty()
                }) + ")"@ + s
            } else {
                kind_name(t.typ) + s
            }
        },
    }
}

/// The texts of the types of a list, separated by ", " (a separator first unless `first`).
pub open spec fn spec_list_string(l: TypeList, first: bool) -> Seq<char>
    decreases l,
{
    match l {
        TypeList::Nil => Seq::empty(),
        TypeList::Cons(h, t) => (if first {
            Seq::empty()
        } else {
            ", "@
        }) + spec_type_string(*h, Seq::empty()) + spec_list_string(*t, false),
    }
}

impl TypeCell {
    /// The text of this type as error messages show it, with `s` written at the place of the
    /// declared name.
    pub fn get_type_string(&self, s: Vec<char>) -> (r: Vec<char>)
        ensures
            r@ == spec_type_string(*self, s@),
        decreases self,
    {
        if let Some(deref) = &self.ptr_to {
            let mut string: Vec<char> = Vec::new();
            if self.typ == Type::Array {
                crate::utils::push_chars(&mut string, &s);
                crate::utils::push_str(&mut string, "[");
                if let Some(size) = self.array_size {
                    crate::utils::push_u64(&mut string, size as u64);
                }
                crate::utils::push_str(&mut string, "]");
            } else if deref.typ == Type::Array {
                crate::utils::push_str(&mut string, " (");
                crate::utils::push_chars(&mut string, &s);
                crate::utils::push_str(&mut string, "*)");
            } else {
                crate::utils::push_str(&mut string, "*");
                crate::utils::push_chars(&mut string, &s);
            }
            proof {
                if self.typ == Type::Array {
                    if self.array_size is Some {
                        assert(string@ =~= s@ + "["@ + crate::utils::decimal(self.array_size.unwrap() as nat) + "]"@);
                    } else {
                        assert(string@ =~= s@ + "["@ + Seq::<char>::empty() + "]"@);
                    }
                } else if deref.typ == Type::Array {
                    assert(string@ =~= " ("@ + s@ + "*)"@);
                } else {
                    assert(string@ =~= "*"@ + s@);
                }
            }
            deref.get_type_string(string)
        } else if self.typ == Type::Func {
            let mut out: Vec<char> = Vec::new();
            if let Some(ret) = &self.ret_typ {
                let r = ret.get_type_string(Vec::new());
                crate::utils::push_chars(&mut out, &r);
            }
            let ghost a = out@;
            crate::utils::push_str(&mut out, " __func(");
            let ghost b = out@;
            if let Some(args) = &self.arg_typs {
                let a = args.get_list_string(true);
                crate::utils::push_chars(&mut out, &a);
            }
            let ghost c = out@;
            crate::utils::push_str(&mut out, ")");
            crate::utils::push_chars(&mut out, &s);
            proof {
                if self.ret_typ is Some {
                    assert(Seq::<char>::empty() + spec_type_string(*self.ret_typ.unwrap(), Seq::empty())
                        =~= spec_type_string(*self.ret_typ.unwrap(), Seq::empty()));
                } else {
                    assert(a =~= Seq::<char>::empty());
                }
                assert(out@ =~= spec_type_string(*self, s@));
            }
            out
        } else {
            let mut out = crate::utils::chars_of(self.typ.name());
            crate::utils::push_chars(&mut out, &s);
            out
        }
    }

    /// The text of this type as error messages show it.
    pub fn type_string(&self) -> (r: Vec<char>)
        ensures
            r@ == spec_type_string(*self, Seq::empty()),
    {
        let empty: Vec<char> = Vec::new();
        proof {
            assert(empty@ =~= Seq::<char>::empty());
        }
        self.get_type_string(empty)
    }
}

impl TypeList {
    /// The texts of the types of the list, separated by ", ".
    pub fn get_list_string(&self, first: bool) -> (r: Vec<char>)
        ensures
            r@ == spec_list_string(*self, first),
        decreases self,
    {
        match self {
            TypeList::Nil => Vec::new(),
            TypeList::Cons(h, t) => {
                let mut out: Vec<char> = Vec::new();
                if !first {
                    crate::utils::push_str(&mut out, ", ");
                }
                let hs = h.get_type_string(Vec::new());
                crate::utils::push_chars(&mut out, &hs);
                let ts = t.get_list_string(false);
                crate::utils::push_chars(&mut out, &ts);
                proof {
                    assert(out@ =~= spec_list_string(*self, first));
                }
                out
            },
        }
    }
}

/// Dereferencing a pointer to `t` gives `t` back: a pointer made by `make_ptr_to` refers to
/// exactly the type it was made from, and `make_deref` hands that type out.
pub proof fn lemma_deref_of_ptr_to(t: TypeCell)
    ensures
        spec_ptr_to(t).typ == Type::Ptr,
        spec_ptr_to(t).ptr_to == Some(Box::new(t)),
        spec_ptr_to(t).chains == t.chains + 1 || t.chains == usize::MAX,
{
}

/// An element of an array of `t` is a `t`, and the array has one level more than `t`.
pub proof fn lemma_deref_of_array_of(t: TypeCell, size: usize)
    ensures
        spec_array_of(t, size).typ == Type::Array,
        spec_array_of(t, size).ptr_to == Some(Box::new(t)),
        spec_array_of(t, size).array_size == Some(size),
        spec_array_of(t, size).chains == t.chains + 1 || t.chains == usize::MAX,
{
}

/// The product of a length followed by more lengths.
proof fn lemma_product_cons(n: usize, d: Seq<usize>)
    ensures
        product(seq![n] + d) == (n as nat) * product(d),
    decreases d.len(),
{
    if d.len() == 0 {
        assert(seq![n] + d =~= seq![n]);
        assert(seq![n].drop_last() =~= Seq::<usize>::empty());
        assert(product(seq![n]) == product(Seq::<usize>::empty()) * (n as nat));
        assert(product(Seq::<usize>::empty()) == 1);
        assert(product(d) == 1);
        assert(product(seq![n] + d) == product(seq![n]));
        assert(1 * (n as nat) == (n as nat) * 1);
    } else {
        let s = seq![n] + d;
        assert(s.drop_last() =~= seq![n] + d.drop_last());
        lemma_product_cons(n, d.drop_last());
        let a = product(d.drop_last());
        let l = d.last() as nat;
        assert(product(s) == product(s.drop_last()) * (s.last() as nat));
        assert(s.last() == d.last());
        assert(product(d) == a * l);
        assert(product(s.drop_last()) == (n as nat) * a);
        assert(((n as nat) * a) * l == (n as nat) * (a * l)) by (nonlinear_arith);
        assert(product(s) == (n as nat) * product(d));
    }
}

/// The lengths of the levels of an array of `t`: `size`, then those of `t`; the elements
/// below them are those of `t`.
pub proof fn lemma_array_dim_of(t: TypeCell, size: usize)
    ensures
        spec_array_dim(spec_array_of(t, size)).0 == seq![size] + spec_array_dim(t).0,
        spec_array_dim(spec_array_of(t, size)).1 == spec_array_dim(t).1,
{
    let a = spec_array_of(t, size);
    assert(*a.ptr_to.unwrap() == t);
}

/// An array of `size` elements of `t` holds `size` times as many scalars as `t` and takes
/// `size` times its bytes (for `t` an array, or a type that is no array at all).
pub proof fn lemma_array_of_sizes(t: TypeCell, size: usize)
    requires
        t.typ == Type::Array || t.array_size is None,
        t.typ == Type::Array ==> t.array_size is Some && t.ptr_to is Some,
    ensures
        spec_flatten_size(spec_array_of(t, size)) == (size as nat) * spec_flatten_size(t),
        spec_bytes(spec_array_of(t, size)) == (size as nat) * spec_bytes(t),
{
    lemma_array_dim_of(t, size);
    let (d, b) = spec_array_dim(t);
    lemma_product_cons(size, d);
    let a = spec_array_of(t, size);
    assert(spec_flatten_size(a) == (size as nat) * product(d));
    let k = type_bytes(b.typ);
    let p = product(d);
    if t.typ == Type::Array {
        assert(spec_bytes(a) == k * ((size as nat) * p));
        assert(spec_bytes(t) == k * p);
        assert(k * ((size as nat) * p) == (size as nat) * (k * p)) by (nonlinear_arith);
    } else {
        assert(d =~= Seq::<usize>::empty());
        assert(b == t);
        assert(p == 1);
        assert(spec_bytes(a) == k * ((size as nat) * p));
        assert(spec_bytes(t) == k);
        assert(k * ((size as nat) * 1) == (size as nat) * k) by (nonlinear_arith);
    }
}

/// Every list of types equals itself, element by element.
pub proof fn lemma_list_eq_refl(l: TypeList)
    ensures
        list_eq(l, l),
    decreases l,
{
    match l {
        TypeList::Nil => {},
        TypeList::Cons(h, t) => {
            lemma_type_eq_refl(*h);
            lemma_list_eq_refl(*t);
        },
    }
}

/// Every type equals itself.
pub proof fn lemma_type_eq_refl(t: TypeCell)
    ensures
        type_eq(t, t),
    decreases t,
{
    if t.ptr_end is None {
        match t.ret_typ {
            Some(r) => lemma_type_eq_refl(*r),
            None => {},
        }
        match t.arg_typs {
            Some(xs) => lemma_list_eq_refl(xs),
            None => {},
        }
    }
}

/// Whether the kind, the end kind and the depth of `t` agree: a pointer or an array has an
/// end kind and a depth above zero, other kinds neither; and so do the return and argument
/// types of a function type.
pub open spec fn consistent(t: TypeCell) -> bool
    decreases t,
{
    &&& (t.ptr_end is Some <==> t.chains > 0)
    &&& (t.ptr_end is Some <==> (t.typ == Type::Ptr || t.typ == Type::Array))
    &&& match t.ret_typ {
        Some(r) => consistent(*r),
        None => true,
    }
    &&& match t.arg_typs {
        Some(l) => list_consistent(l),
        None => true,
    }
}

/// Whether every type of the list `l` is consistent.
pub open spec fn list_consistent(l: TypeList) -> bool
    decreases l,
{
    match l {
        TypeList::Nil => true,
        TypeList::Cons(h, t) => consistent(*h) && list_consistent(*t),
    }
}

/// Type equality is symmetric on consistent types.
pub proof fn lemma_type_eq_symmetric(a: TypeCell, b: TypeCell)
    requires
        consistent(a),
        consistent(b),
        type_eq(a, b),
    ensures
        type_eq(b, a),
    decreases a,
{
    if a.ptr_end is None {
        match (a.ret_typ, b.ret_typ) {
            (Some(x), Some(y)) => lemma_type_eq_symmetric(*x, *y),
            _ => {},
        }
        match (a.arg_typs, b.arg_typs) {
            (Some(xs), Some(ys)) => lemma_list_eq_symmetric(xs, ys),
            _ => {},
        }
    }
}

/// List equality is symmetric on consistent lists.
pub proof fn lemma_list_eq_symmetric(a: TypeList, b: TypeList)
    requires
        list_consistent(a),
        list_consistent(b),
        list_eq(a, b),
    ensures
        list_eq(b, a),
    decreases a,
{
    match (a, b) {
        (TypeList::Cons(x, xs), TypeList::Cons(y, ys)) => {
            lemma_type_eq_symmetric(*x, *y);
            lemma_list_eq_symmetric(*xs, *ys);
        },
        _ => {},
    }
}

/// Type equality is transitive on consistent types.
pub proof fn lemma_type_eq_transitive(a: TypeCell, b: TypeCell, c: TypeCell)
    requires
        consistent(a),
        consistent(b),
        consistent(c),
        type_eq(a, b),
        type_eq(b, c),
    ensures
        type_eq(a, c),
    decreases a,
{
    if a.ptr_end is None {
        match (a.ret_typ, b.ret_typ, c.ret_typ) {
            (Some(x), Some(y), Some(z)) => lemma_type_eq_transitive(*x, *y, *z),
            _ => {},
        }
        match (a.arg_typs, b.arg_typs, c.arg_typs) {
            (Some(xs), Some(ys), Some(zs)) => lemma_list_eq_transitive(xs, ys, zs),
            _ => {},
        }
    }
}

/// List equality is transitive on consistent lists.
pub proof fn lemma_list_eq_transitive(a: TypeList, b: TypeList, c: TypeList)
    requires
        list_consistent(a),
        list_consistent(b),
        list_consistent(c),
        list_eq(a, b),
        list_eq(b, c),
    ensures
        list_eq(a, c),
    decreases a,
{
    match (a, b, c) {
        (TypeList::Cons(x, xs), TypeList::Cons(y, ys), TypeList::Cons(z, zs)) => {
            lemma_type_eq_transitive(*x, *y, *z);
            lemma_list_eq_transitive(*xs, *ys, *zs);
        },
        _ => {},
    }
}

/// The types the parser builds are consistent: plain `int` and `char`, pointers to and
/// arrays of consistent types (whose depth has room for one more level).
pub proof fn lemma_built_types_consistent(t: TypeCell, size: usize)
    requires
        consistent(t),
        t.chains < usize::MAX,
    ensures
        consistent(spec_new(Type::Int)),
        consistent(spec_new(Type::Char)),
        consistent(spec_ptr_to(t)),
        consistent(spec_array_of(t, size)),
{
}

/// Two pointer or array types are equal exactly when both have the same number of levels
/// and refer in the end to the same type: `int*` is not `char*`.
pub proof fn lemma_type_eq_pointers(a: TypeCell, b: TypeCell)
    requires
        a.ptr_end is Some,
    ensures
        type_eq(a, b) <==> (b.ptr_end is Some && a.chains == b.chains && a.ptr_end == b.ptr_end),
{
}

} // verus!
