//! The grammar of expressions as a relation between a range of tokens and the operator
//! structure of the tree that the parser builds from it. Typing (which fills in types and
//! wraps operands in conversions) leaves that structure as it is.
use vstd::prelude::*;
use crate::node::{Node, Nodekind};
use crate::parser::{
    tok_is, typed_as, child_as, casted_as, arith_kind, arith_type, child_type, typed_type, add_shape,
    sub_shape, assign_shape, scaled_shape, scale_type, pointee_size,
};
use crate::typecell::{TypeCell, spec_common_type};
use crate::token::{Token, Tokenkind};
use crate::tokenizer::spec_type_of;

verus! {

/// The operator structure of a syntax tree: each node by its kind, its token and its value,
/// with its one or two operands; conversions do not show, nor do types, names or offsets.
pub enum Shape {
    Leaf { kind: Nodekind, token: Option<usize>, val: Option<i32> },
    Un { kind: Nodekind, token: Option<usize>, operand: Box<Shape> },
    Bin { kind: Nodekind, token: Option<usize>, left: Box<Shape>, right: Box<Shape> },
}

/// The operator structure of `n`: a conversion shows as what it converts.
pub open spec fn shape(n: Node) -> Shape
    decreases n,
{
    if n.kind == Nodekind::CastNd && n.left is Some {
        shape(*n.left.unwrap())
    } else {
        match (n.left, n.right) {
            (Some(l), Some(r)) => Shape::Bin {
                kind: n.kind,
                token: n.token,
                left: Box::new(shape(*l)),
                right: Box::new(shape(*r)),
            },
            (Some(l), None) => Shape::Un { kind: n.kind, token: n.token, operand: Box::new(shape(*l)) },
            _ => Shape::Leaf { kind: n.kind, token: n.token, val: n.val },
        }
    }
}

/// The kind at the top of `s`.
pub open spec fn kind_of(s: Shape) -> Nodekind {
    match s {
        Shape::Leaf { kind, .. } => kind,
        Shape::Un { kind, .. } => kind,
        Shape::Bin { kind, .. } => kind,
    }
}

/// The position of the token at the top of `s` (-1 where it has none).
pub open spec fn at_of(s: Shape) -> int {
    let t = match s {
        Shape::Leaf { token, .. } => token,
        Shape::Un { token, .. } => token,
        Shape::Bin { token, .. } => token,
    };
    match t {
        Some(i) => i as int,
        None => -1,
    }
}

/// The first operand of `s` (`s` itself for a leaf).
pub open spec fn lhs(s: Shape) -> Shape {
    match s {
        Shape::Leaf { .. } => s,
        Shape::Un { operand, .. } => *operand,
        Shape::Bin { left, .. } => *left,
    }
}

/// The second operand of `s` (`s` itself where it has none).
pub open spec fn rhs(s: Shape) -> Shape {
    match s {
        Shape::Bin { right, .. } => *right,
        _ => s,
    }
}

/// `s` is an operation of kind `k` on two operands, read at a token strictly inside
/// `lo..hi`.
pub open spec fn bin_in(s: Shape, k: Nodekind, lo: int, hi: int) -> bool {
    &&& s is Bin
    &&& kind_of(s) == k
    &&& lo < at_of(s) < hi
}

/// `s` is an operation of kind `k` on one operand, read at the token `lo`.
pub open spec fn un_at(s: Shape, k: Nodekind, lo: int) -> bool {
    &&& s is Un
    &&& kind_of(s) == k
    &&& at_of(s) == lo
}

/// `lo..hi` is a nonempty range of tokens of `toks`.
pub open spec fn range_ok(toks: Seq<Token>, lo: int, hi: int) -> bool {
    0 <= lo < hi <= toks.len()
}

/// primary: a number; an expression in parentheses; a variable or a string literal; a call
/// (its arguments are read as assignment expressions, but their trees do not show in the
/// shape of the call); a variable with subscripts.
pub open spec fn reads_primary(toks: Seq<Token>, lo: int, hi: int, s: Shape) -> bool
    decreases hi - lo, 1int,
{
    if !range_ok(toks, lo, hi) {
        false
    } else {
        ||| toks[lo].kind == Tokenkind::Num && hi == lo + 1 && s == Shape::Leaf {
            kind: Nodekind::NumNd,
            token: Some(lo as usize),
            val: toks[lo].val,
        }
        ||| tok_is(toks, lo, "("@) && tok_is(toks, hi - 1, ")"@) && lo + 1 < hi - 1 && reads_expr(
            toks,
            lo + 1,
            hi - 1,
            s,
        )
        ||| (toks[lo].kind == Tokenkind::Ident || toks[lo].kind == Tokenkind::String) && hi == lo + 1 && s
            == Shape::Leaf { kind: Nodekind::LvarNd, token: Some(lo as usize), val: None }
        ||| toks[lo].kind == Tokenkind::Ident && tok_is(toks, lo + 1, "("@) && lo + 2 < hi && reads_params(toks, lo + 2, hi) && s
            == Shape::Leaf { kind: Nodekind::FunCallNd, token: Some(lo as usize), val: None }
        ||| toks[lo].kind == Tokenkind::Ident && tok_is(toks, lo + 1, "["@) && reads_subscripts(toks, lo, hi, s)
    }
}

/// Every shape (the trigger by which a witness is given).
pub open spec fn any_shape(s: Shape) -> bool {
    true
}

/// Every position (the trigger by which a witness is given).
pub open spec fn any_pos(k: int) -> bool {
    true
}

/// The tokens `lo..hi` are a unary expression (whatever tree it makes).
pub open spec fn is_unary(toks: Seq<Token>, lo: int, hi: int) -> bool
    decreases hi - lo, 16int,
{
    exists|s: Shape| #[trigger] any_shape(s) && reads_unary(toks, lo, hi, s)
}

/// The tokens `lo..hi` are an assignment expression (whatever tree it makes).
pub open spec fn is_assign(toks: Seq<Token>, lo: int, hi: int) -> bool
    decreases hi - lo, 16int,
{
    exists|s: Shape| #[trigger] any_shape(s) && reads_assign(toks, lo, hi, s)
}

/// The tokens `lo..hi` are an expression (whatever tree it makes).
pub open spec fn is_expr(toks: Seq<Token>, lo: int, hi: int) -> bool
    decreases hi - lo, 16int,
{
    exists|s: Shape| #[trigger] any_shape(s) && reads_expr(toks, lo, hi, s)
}

/// The arguments of a call after its `(`: `)` alone, or assignment expressions separated by
/// `,` and followed by `)` (their trees do not show).
pub open spec fn reads_params(toks: Seq<Token>, lo: int, hi: int) -> bool
    decreases hi - lo, 0int,
{
    if !range_ok(toks, lo, hi) {
        false
    } else {
        &&& tok_is(toks, hi - 1, ")"@)
        &&& hi == lo + 1 || reads_args(toks, lo, hi - 1)
    }
}

/// assign ("," assign)*: the tokens `lo..hi` are assignment expressions separated by `,`.
pub open spec fn reads_args(toks: Seq<Token>, lo: int, hi: int) -> bool
    decreases hi - lo, 17int,
{
    if !range_ok(toks, lo, hi) {
        false
    } else {
        ||| is_assign(toks, lo, hi)
        ||| exists|k: int|
            #[trigger] any_pos(k) && lo < k - 1 && k < hi && tok_is(toks, k - 1, ","@) && reads_args(toks, lo, k - 1)
                && is_assign(toks, k, hi)
    }
}

/// A variable with one or more subscripts `[e]`: `s` is the dereference, read at the
/// variable, of the sum (read at the first token of `e`) of what comes before the last
/// subscript and of `e`, scaled as for `+` (the pointer operand first).
pub open spec fn reads_subscripts(toks: Seq<Token>, lo: int, hi: int, s: Shape) -> bool
    decreases hi - lo, 0int,
{
    if !range_ok(toks, lo, hi) {
        false
    } else {
        let sum = lhs(s);
        let j = at_of(sum) - 1;
        &&& un_at(s, Nodekind::DerefNd, lo)
        &&& sum is Bin && kind_of(sum) == Nodekind::AddNd
        &&& lo < j && j + 1 < hi - 1 && tok_is(toks, j, "["@) && tok_is(toks, hi - 1, "]"@)
        &&& {
            ||| reads_subscripted(toks, lo, j, lhs(sum)) && reads_expr(toks, j + 1, hi - 1, rhs(sum))
            ||| reads_subscripted(toks, lo, j, lhs(sum)) && scaled(rhs(sum)) && reads_expr(
                toks,
                j + 1,
                hi - 1,
                rhs(rhs(sum)),
            )
            ||| reads_expr(toks, j + 1, hi - 1, lhs(sum)) && scaled(rhs(sum)) && reads_subscripted(
                toks,
                lo,
                j,
                rhs(rhs(sum)),
            )
        }
    }
}

/// What a subscript applies to: the variable alone, or the variable with subscripts.
pub open spec fn reads_subscripted(toks: Seq<Token>, lo: int, hi: int, s: Shape) -> bool
    decreases hi - lo, 1int,
{
    if !range_ok(toks, lo, hi) {
        false
    } else {
        ||| hi == lo + 1 && toks[lo].kind == Tokenkind::Ident && s == Shape::Leaf {
            kind: Nodekind::LvarNd,
            token: Some(lo as usize),
            val: None,
        }
        ||| reads_subscripts(toks, lo, hi, s)
    }
}

/// tailed: a primary, or a primary followed by `++` (read as `(x += 1) - 1`) or `--` (read
/// as `(x -= 1) + 1`), of which only the top shows.
pub open spec fn reads_tailed(toks: Seq<Token>, lo: int, hi: int, s: Shape) -> bool
    decreases hi - lo, 2int,
{
    if !range_ok(toks, lo, hi) {
        false
    } else {
        ||| reads_primary(toks, lo, hi, s)
        ||| lo < hi - 1 && tok_is(toks, hi - 1, "++"@) && plus_one(s, Nodekind::SubNd, hi - 1, lhs(s)) && compound(
            lhs(s),
            Nodekind::AddNd,
            hi - 1,
            compound_left(lhs(s)),
            one(),
        ) && reads_primary(toks, lo, hi - 1, compound_left(lhs(s)))
        ||| lo < hi - 1 && tok_is(toks, hi - 1, "--"@) && plus_one(s, Nodekind::AddNd, hi - 1, lhs(s)) && compound(
            lhs(s),
            Nodekind::SubNd,
            hi - 1,
            compound_left(lhs(s)),
            one(),
        ) && reads_primary(toks, lo, hi - 1, compound_left(lhs(s)))
    }
}

/// unary: `sizeof` (a number, whose value does not show), `~ ! * &` applied to a unary, `+`
/// and `-` applied to a primary (as `0 + x` and `0 - x`), `++` and `--` applied to a unary
/// (of which only the top shows), or a tailed.
pub open spec fn reads_unary(toks: Seq<Token>, lo: int, hi: int, s: Shape) -> bool
    decreases hi - lo, 3int,
{
    if !range_ok(toks, lo, hi) {
        false
    } else if tok_is(toks, lo, "sizeof"@) {
        &&& s is Leaf && kind_of(s) == Nodekind::NumNd && at_of(s) == lo
        &&& if tok_is(toks, lo + 1, "("@) {
            ||| hi == lo + 4 && type_token(toks, lo + 2) && tok_is(toks, lo + 3, ")"@)
            ||| !type_token(toks, lo + 2) && lo + 2 < hi - 1 && tok_is(toks, hi - 1, ")"@) && is_expr(
                toks,
                lo + 2,
                hi - 1,
            )
        } else {
            is_unary(toks, lo + 1, hi)
        }
    } else if tok_is(toks, lo, "~"@) {
        un_at(s, Nodekind::BitNotNd, lo) && reads_unary(toks, lo + 1, hi, lhs(s))
    } else if tok_is(toks, lo, "!"@) {
        un_at(s, Nodekind::LogNotNd, lo) && reads_unary(toks, lo + 1, hi, lhs(s))
    } else if tok_is(toks, lo, "*"@) {
        un_at(s, Nodekind::DerefNd, lo) && reads_unary(toks, lo + 1, hi, lhs(s))
    } else if tok_is(toks, lo, "&"@) {
        un_at(s, Nodekind::AddrNd, lo) && reads_unary(toks, lo + 1, hi, lhs(s))
    } else if tok_is(toks, lo, "+"@) {
        s is Bin && kind_of(s) == Nodekind::AddNd && at_of(s) == lo && lhs(s) == zero() && reads_primary(
            toks,
            lo + 1,
            hi,
            rhs(s),
        )
    } else if tok_is(toks, lo, "-"@) {
        s is Bin && kind_of(s) == Nodekind::SubNd && at_of(s) == lo && lhs(s) == zero() && reads_primary(
            toks,
            lo + 1,
            hi,
            rhs(s),
        )
    } else if tok_is(toks, lo, "++"@) {
        compound(s, Nodekind::AddNd, lo, compound_left(s), one()) && reads_unary(toks, lo + 1, hi, compound_left(s))
    } else if tok_is(toks, lo, "--"@) {
        compound(s, Nodekind::SubNd, lo, compound_left(s), one()) && reads_unary(toks, lo + 1, hi, compound_left(s))
    } else {
        reads_tailed(toks, lo, hi, s)
    }
}

/// Whether token `at` of `toks` is a type keyword.
pub open spec fn type_token(toks: Seq<Token>, at: int) -> bool {
    0 <= at < toks.len() && toks[at].kind == Tokenkind::Reserved && toks[at]@.body is Some && spec_type_of(
        toks[at]@.body.unwrap(),
    ) is Some
}

/// The temporary variable through which a compound assignment reaches its left side.
pub open spec fn temp() -> Shape {
    Shape::Leaf { kind: Nodekind::LvarNd, token: None, val: None }
}

/// What the temporary of a compound assignment points to.
pub open spec fn temp_target() -> Shape {
    Shape::Un { kind: Nodekind::DerefNd, token: None, operand: Box::new(temp()) }
}

/// The number 1 that `++` and `--` add or subtract.
pub open spec fn one() -> Shape {
    Shape::Leaf { kind: Nodekind::NumNd, token: None, val: Some(1i32) }
}

/// `o` is `a` and `b` combined by the operation of kind `k` read at `t`: for `+` and `-` as
/// `new_add` and `new_sub` make it (with the scaling of pointer arithmetic), otherwise the
/// plain operation.
pub open spec fn operation(o: Shape, k: Nodekind, t: int, a: Shape, b: Shape) -> bool {
    &&& o is Bin
    &&& at_of(o) == t
    &&& if k == Nodekind::AddNd {
        &&& kind_of(o) == Nodekind::AddNd
        &&& {
            ||| lhs(o) == a && rhs(o) == b
            ||| lhs(o) == a && scaled(rhs(o)) && rhs(rhs(o)) == b
            ||| lhs(o) == b && scaled(rhs(o)) && rhs(rhs(o)) == a
        }
    } else if k == Nodekind::SubNd {
        ||| kind_of(o) == Nodekind::SubNd && lhs(o) == a && rhs(o) == b
        ||| kind_of(o) == Nodekind::SubNd && lhs(o) == a && scaled(rhs(o)) && rhs(rhs(o)) == b
        ||| kind_of(o) == Nodekind::DivNd && lhs(o) is Bin && kind_of(lhs(o)) == Nodekind::SubNd && at_of(lhs(o))
            == -1 && lhs(lhs(o)) == a && rhs(lhs(o)) == b && rhs(o) is Leaf && kind_of(rhs(o)) == Nodekind::NumNd
            && at_of(rhs(o)) == -1
    } else {
        kind_of(o) == k && lhs(o) == a && rhs(o) == b
    }
}

/// `s` is the compound assignment of `r` to `l` by the operation of kind `k`, read at `t`: a
/// temporary takes the address of `l`, then what it points to takes itself combined with
/// `r`.
pub open spec fn compound(s: Shape, k: Nodekind, t: int, l: Shape, r: Shape) -> bool {
    &&& s is Bin && kind_of(s) == Nodekind::CommaNd && at_of(s) == t
    &&& lhs(s) == (Shape::Bin {
        kind: Nodekind::AssignNd,
        token: None,
        left: Box::new(temp()),
        right: Box::new(Shape::Un { kind: Nodekind::AddrNd, token: None, operand: Box::new(l) }),
    })
    &&& rhs(s) is Bin && kind_of(rhs(s)) == Nodekind::AssignNd && at_of(rhs(s)) == -1
    &&& lhs(rhs(s)) == temp_target()
    &&& operation(rhs(rhs(s)), k, t, temp_target(), r)
}

/// The left side of a compound assignment `s`.
pub open spec fn compound_left(s: Shape) -> Shape {
    lhs(rhs(lhs(s)))
}

/// `s` is `a` with 1 added (`k` is `AddNd`) or subtracted (`SubNd`) at `t`, the 1 scaled
/// where `a` is a pointer.
pub open spec fn plus_one(s: Shape, k: Nodekind, t: int, a: Shape) -> bool {
    &&& s is Bin && kind_of(s) == k && at_of(s) == t
    &&& lhs(s) == a
    &&& rhs(s) == one() || (scaled(rhs(s)) && rhs(rhs(s)) == one())
}

/// The operation that a compound assignment operator applies.
pub open spec fn compound_kind(op: Seq<char>) -> Nodekind {
    if op == "+="@ {
        Nodekind::AddNd
    } else if op == "-="@ {
        Nodekind::SubNd
    } else if op == "*="@ {
        Nodekind::MulNd
    } else if op == "/="@ {
        Nodekind::DivNd
    } else if op == "%="@ {
        Nodekind::ModNd
    } else if op == "&="@ {
        Nodekind::BitAndNd
    } else if op == "^="@ {
        Nodekind::BitXorNd
    } else if op == "|="@ {
        Nodekind::BitOrNd
    } else if op == "<<="@ {
        Nodekind::LShiftNd
    } else {
        Nodekind::RShiftNd
    }
}

/// The number 0 that `+x` and `-x` start from.
pub open spec fn zero() -> Shape {
    Shape::Leaf { kind: Nodekind::NumNd, token: None, val: Some(0i32) }
}

/// `s` is `k` read at the operator token `op` strictly inside `lo..hi`.
pub open spec fn op_in(toks: Seq<Token>, s: Shape, k: Nodekind, op: Seq<char>, lo: int, hi: int) -> bool {
    bin_in(s, k, lo, hi) && tok_is(toks, at_of(s), op)
}

/// mul: unary (("*" | "/" | "%") unary)*, grouped from the left.
pub open spec fn reads_mul(toks: Seq<Token>, lo: int, hi: int, s: Shape) -> bool
    decreases hi - lo, 4int,
{
    if !range_ok(toks, lo, hi) {
        false
    } else {
        ||| reads_unary(toks, lo, hi, s)
        ||| (op_in(toks, s, Nodekind::MulNd, "*"@, lo, hi) || op_in(toks, s, Nodekind::DivNd, "/"@, lo, hi) || op_in(
            toks,
            s,
            Nodekind::ModNd,
            "%"@,
            lo,
            hi,
        )) && reads_mul(toks, lo, at_of(s), lhs(s)) && reads_unary(toks, at_of(s) + 1, hi, rhs(s))
    }
}

/// `s` is `x * size` as pointer arithmetic makes it: a product without a token of a number
/// (the size of what the pointer refers to) and `x`.
pub open spec fn scaled(s: Shape) -> bool {
    &&& s is Bin
    &&& kind_of(s) == Nodekind::MulNd
    &&& at_of(s) == -1
    &&& lhs(s) is Leaf && kind_of(lhs(s)) == Nodekind::NumNd && at_of(lhs(s)) == -1
}

/// add: mul (("+" | "-") mul)*, grouped from the left; with a pointer operand the integer
/// operand is scaled (and goes to the right of a sum), and the difference of two pointers is
/// divided by the size of what they refer to.
pub open spec fn reads_add(toks: Seq<Token>, lo: int, hi: int, s: Shape) -> bool
    decreases hi - lo, 5int,
{
    if !range_ok(toks, lo, hi) {
        false
    } else {
        ||| reads_mul(toks, lo, hi, s)
        ||| op_in(toks, s, Nodekind::AddNd, "+"@, lo, hi) && {
            ||| reads_add(toks, lo, at_of(s), lhs(s)) && reads_mul(toks, at_of(s) + 1, hi, rhs(s))
            ||| reads_add(toks, lo, at_of(s), lhs(s)) && scaled(rhs(s)) && reads_mul(
                toks,
                at_of(s) + 1,
                hi,
                rhs(rhs(s)),
            )
            ||| reads_mul(toks, at_of(s) + 1, hi, lhs(s)) && scaled(rhs(s)) && reads_add(
                toks,
                lo,
                at_of(s),
                rhs(rhs(s)),
            )
        }
        ||| op_in(toks, s, Nodekind::SubNd, "-"@, lo, hi) && reads_add(toks, lo, at_of(s), lhs(s)) && {
            ||| reads_mul(toks, at_of(s) + 1, hi, rhs(s))
            ||| scaled(rhs(s)) && reads_mul(toks, at_of(s) + 1, hi, rhs(rhs(s)))
        }
        ||| op_in(toks, s, Nodekind::DivNd, "-"@, lo, hi) && lhs(s) is Bin && kind_of(lhs(s)) == Nodekind::SubNd
            && at_of(lhs(s)) == -1 && reads_add(toks, lo, at_of(s), lhs(lhs(s))) && reads_mul(
            toks,
            at_of(s) + 1,
            hi,
            rhs(lhs(s)),
        ) && rhs(s) is Leaf && kind_of(rhs(s)) == Nodekind::NumNd && at_of(rhs(s)) == -1
    }
}

/// shift: add (("<<" | ">>") add)*, grouped from the left.
pub open spec fn reads_shift(toks: Seq<Token>, lo: int, hi: int, s: Shape) -> bool
    decreases hi - lo, 6int,
{
    if !range_ok(toks, lo, hi) {
        false
    } else {
        ||| reads_add(toks, lo, hi, s)
        ||| (op_in(toks, s, Nodekind::LShiftNd, "<<"@, lo, hi) || op_in(toks, s, Nodekind::RShiftNd, ">>"@, lo, hi))
            && reads_shift(toks, lo, at_of(s), lhs(s)) && reads_add(toks, at_of(s) + 1, hi, rhs(s))
    }
}

/// relational: shift (("<" | "<=" | ">" | ">=") shift)*, grouped from the left, with `a > b`
/// read as `b < a` and `a >= b` as `b <= a`.
pub open spec fn reads_relational(toks: Seq<Token>, lo: int, hi: int, s: Shape) -> bool
    decreases hi - lo, 7int,
{
    if !range_ok(toks, lo, hi) {
        false
    } else {
        ||| reads_shift(toks, lo, hi, s)
        ||| (op_in(toks, s, Nodekind::LThanNd, "<"@, lo, hi) || op_in(toks, s, Nodekind::LEqNd, "<="@, lo, hi))
            && reads_relational(toks, lo, at_of(s), lhs(s)) && reads_shift(toks, at_of(s) + 1, hi, rhs(s))
        ||| (op_in(toks, s, Nodekind::LThanNd, ">"@, lo, hi) || op_in(toks, s, Nodekind::LEqNd, ">="@, lo, hi))
            && reads_relational(toks, lo, at_of(s), rhs(s)) && reads_shift(toks, at_of(s) + 1, hi, lhs(s))
    }
}

/// equality: relational (("==" | "!=") relational)?
pub open spec fn reads_equality(toks: Seq<Token>, lo: int, hi: int, s: Shape) -> bool
    decreases hi - lo, 8int,
{
    if !range_ok(toks, lo, hi) {
        false
    } else {
        ||| reads_relational(toks, lo, hi, s)
        ||| (op_in(toks, s, Nodekind::EqNd, "=="@, lo, hi) || op_in(toks, s, Nodekind::NEqNd, "!="@, lo, hi))
            && reads_relational(toks, lo, at_of(s), lhs(s)) && reads_relational(toks, at_of(s) + 1, hi, rhs(s))
    }
}

/// bitand: equality ("&" equality)*, grouped from the left.
pub open spec fn reads_bitand(toks: Seq<Token>, lo: int, hi: int, s: Shape) -> bool
    decreases hi - lo, 9int,
{
    if !range_ok(toks, lo, hi) {
        false
    } else {
        ||| reads_equality(toks, lo, hi, s)
        ||| op_in(toks, s, Nodekind::BitAndNd, "&"@, lo, hi) && reads_bitand(toks, lo, at_of(s), lhs(s))
            && reads_equality(toks, at_of(s) + 1, hi, rhs(s))
    }
}

/// bitxor: bitand ("^" bitand)*, grouped from the left.
pub open spec fn reads_bitxor(toks: Seq<Token>, lo: int, hi: int, s: Shape) -> bool
    decreases hi - lo, 10int,
{
    if !range_ok(toks, lo, hi) {
        false
    } else {
        ||| reads_bitand(toks, lo, hi, s)
        ||| op_in(toks, s, Nodekind::BitXorNd, "^"@, lo, hi) && reads_bitxor(toks, lo, at_of(s), lhs(s))
            && reads_bitand(toks, at_of(s) + 1, hi, rhs(s))
    }
}

/// bitor: bitxor ("|" bitxor)*, grouped from the left.
pub open spec fn reads_bitor(toks: Seq<Token>, lo: int, hi: int, s: Shape) -> bool
    decreases hi - lo, 11int,
{
    if !range_ok(toks, lo, hi) {
        false
    } else {
        ||| reads_bitxor(toks, lo, hi, s)
        ||| op_in(toks, s, Nodekind::BitOrNd, "|"@, lo, hi) && reads_bitor(toks, lo, at_of(s), lhs(s))
            && reads_bitxor(toks, at_of(s) + 1, hi, rhs(s))
    }
}

/// logand: bitor ("&&" bitor)*, grouped from the left.
pub open spec fn reads_logand(toks: Seq<Token>, lo: int, hi: int, s: Shape) -> bool
    decreases hi - lo, 12int,
{
    if !range_ok(toks, lo, hi) {
        false
    } else {
        ||| reads_bitor(toks, lo, hi, s)
        ||| op_in(toks, s, Nodekind::LogAndNd, "&&"@, lo, hi) && reads_logand(toks, lo, at_of(s), lhs(s))
            && reads_bitor(toks, at_of(s) + 1, hi, rhs(s))
    }
}

/// logor: logand ("||" logand)*, grouped from the left.
pub open spec fn reads_logor(toks: Seq<Token>, lo: int, hi: int, s: Shape) -> bool
    decreases hi - lo, 13int,
{
    if !range_ok(toks, lo, hi) {
        false
    } else {
        ||| reads_logand(toks, lo, hi, s)
        ||| op_in(toks, s, Nodekind::LogOrNd, "||"@, lo, hi) && reads_logor(toks, lo, at_of(s), lhs(s))
            && reads_logand(toks, at_of(s) + 1, hi, rhs(s))
    }
}

/// Whether `op` is one of the compound assignment operators.
pub open spec fn compound_op(op: Seq<char>) -> bool {
    ||| op == "+="@ || op == "-="@ || op == "*="@ || op == "/="@ || op == "%="@
    ||| op == "&="@ || op == "^="@ || op == "|="@ || op == "<<="@ || op == ">>="@
}

/// assign: logor ("=" assign)?, grouped from the right; a compound assignment shows only
/// its top, read at its operator.
pub open spec fn reads_assign(toks: Seq<Token>, lo: int, hi: int, s: Shape) -> bool
    decreases hi - lo, 14int,
{
    if !range_ok(toks, lo, hi) {
        false
    } else {
        ||| reads_logor(toks, lo, hi, s)
        ||| op_in(toks, s, Nodekind::AssignNd, "="@, lo, hi) && reads_logor(toks, lo, at_of(s), lhs(s))
            && reads_assign(toks, at_of(s) + 1, hi, rhs(s))
        ||| kind_of(s) == Nodekind::CommaNd && lo < at_of(s) < hi && toks[at_of(s)].kind == Tokenkind::Reserved
            && toks[at_of(s)]@.body is Some && compound_op(toks[at_of(s)]@.body.unwrap()) && {
            let t = at_of(s);
            let k = compound_kind(toks[t]@.body.unwrap());
            let l = compound_left(s);
            let o = rhs(rhs(s));
            &&& reads_logor(toks, lo, t, l)
            &&& {
                ||| compound(s, k, t, l, rhs(o)) && reads_assign(toks, t + 1, hi, rhs(o))
                ||| compound(s, k, t, l, rhs(rhs(o))) && reads_assign(toks, t + 1, hi, rhs(rhs(o)))
                ||| compound(s, k, t, l, lhs(o)) && reads_assign(toks, t + 1, hi, lhs(o))
                ||| compound(s, k, t, l, rhs(lhs(o))) && reads_assign(toks, t + 1, hi, rhs(lhs(o)))
            }
        }
    }
}

/// expr: assign ("," expr)?, grouped from the right.
pub open spec fn reads_expr(toks: Seq<Token>, lo: int, hi: int, s: Shape) -> bool
    decreases hi - lo, 15int,
{
    if !range_ok(toks, lo, hi) {
        false
    } else {
        ||| reads_assign(toks, lo, hi, s)
        ||| op_in(toks, s, Nodekind::CommaNd, ","@, lo, hi) && reads_assign(toks, lo, at_of(s), lhs(s))
            && reads_expr(toks, at_of(s) + 1, hi, rhs(s))
    }
}

/// Typing keeps the operator structure of a tree: the typed tree has the shape of the tree
/// it was made from.
pub proof fn lemma_typing_keeps_shape(o: Node, f: Node)
    requires
        typed_as(o, f),
    ensures
        shape(f) == shape(o),
    decreases o,
{
    if o.typ is None {
        let t = arith_type(child_type(o.left), child_type(o.right)).unwrap();
        let casts_left = arith_kind(o.kind);
        let casts_right = arith_kind(o.kind) || o.kind == Nodekind::AssignNd;
        if o.left is Some {
            assert(decreases_to!(o => o.left));
            let a = *o.left.unwrap();
            let b = *f.left.unwrap();
            if casts_left {
                let x = *b.left.unwrap();
                lemma_typing_keeps_shape(a, x);
                assert(shape(b) == shape(x));
            } else {
                lemma_typing_keeps_shape(a, b);
            }
        }
        if o.right is Some {
            assert(decreases_to!(o => o.right));
            let a = *o.right.unwrap();
            let b = *f.right.unwrap();
            if casts_right {
                let x = *b.left.unwrap();
                lemma_typing_keeps_shape(a, x);
                assert(shape(b) == shape(x));
            } else {
                lemma_typing_keeps_shape(a, b);
            }
        }
    }
}

/// The top of the shape of a node that is no conversion is the node's kind and token.
pub proof fn lemma_shape_top(n: Node)
    requires
        n.kind != Nodekind::CastNd,
    ensures
        kind_of(shape(n)) == n.kind,
        at_of(shape(n)) == (match n.token {
            Some(t) => t as int,
            None => -1,
        }),
        n.left is Some && n.right is Some ==> shape(n) is Bin && lhs(shape(n)) == shape(*n.left.unwrap())
            && rhs(shape(n)) == shape(*n.right.unwrap()),
        n.left is Some && n.right is None ==> shape(n) is Un && lhs(shape(n)) == shape(*n.left.unwrap()),
        n.left is None ==> shape(n) == (Shape::Leaf { kind: n.kind, token: n.token, val: n.val }),
{
}

/// A child typed as `child_as` says has the shape of the child it was made from.
proof fn lemma_child_as_shape(oc: Option<Box<Node>>, fc: Option<Box<Node>>)
    requires
        child_as(oc, fc),
        oc is Some,
    ensures
        fc is Some,
        shape(*fc.unwrap()) == shape(*oc.unwrap()),
{
    lemma_typing_keeps_shape(*oc.unwrap(), *fc.unwrap());
}

/// A child typed and converted as `casted_as` says has the shape of the child it was made
/// from.
proof fn lemma_casted_as_shape(oc: Option<Box<Node>>, fc: Option<Box<Node>>, t: TypeCell)
    requires
        casted_as(oc, fc, t),
    ensures
        oc is Some,
        fc is Some,
        shape(*fc.unwrap()) == shape(*oc.unwrap()),
{
    let c = *fc.unwrap();
    let x = *c.left.unwrap();
    lemma_typing_keeps_shape(*oc.unwrap(), x);
}

/// The shape of `x * size` as pointer arithmetic makes it.
proof fn lemma_scaled_shape(m: Node, size: i32, io: Node, t: TypeCell)
    requires
        scaled_shape(m, size, io, t),
    ensures
        scaled(shape(m)),
        rhs(shape(m)) == shape(io),
{
    let c = *m.left.unwrap();
    let num = *c.left.unwrap();
    assert(shape(c) == shape(num));
    lemma_casted_as_shape(Some(Box::new(io)), m.right, t);
}

/// The shape of what `new_add` makes of `l + r` at the token `t`: the sum of the shapes of
/// `l` and `r`, or, with a pointer, the sum of the pointer and the scaled integer.
pub proof fn lemma_add_shape(l: Node, r: Node, t: usize, n: Node)
    requires
        add_shape(l, r, t, n),
    ensures
        shape(n) is Bin,
        kind_of(shape(n)) == Nodekind::AddNd,
        at_of(shape(n)) == t,
        ({
            ||| lhs(shape(n)) == shape(l) && rhs(shape(n)) == shape(r)
            ||| lhs(shape(n)) == shape(l) && scaled(rhs(shape(n))) && rhs(rhs(shape(n))) == shape(r)
            ||| lhs(shape(n)) == shape(r) && scaled(rhs(shape(n))) && rhs(rhs(shape(n))) == shape(l)
        }),
        typed_type(r).unwrap().ptr_end is None ==> lhs(shape(n)) == shape(l) && (rhs(shape(n)) == shape(r) || (
        scaled(rhs(shape(n))) && rhs(rhs(shape(n))) == shape(r))),
{
    let lt = typed_type(l).unwrap();
    let rt = typed_type(r).unwrap();
    if lt.ptr_end is None && rt.ptr_end is None {
        lemma_child_as_shape(Some(Box::new(l)), n.left);
        lemma_child_as_shape(Some(Box::new(r)), n.right);
    } else {
        let po = if lt.ptr_end is Some { l } else { r };
        let io = if lt.ptr_end is Some { r } else { l };
        let pt = if lt.ptr_end is Some { lt } else { rt };
        let it = if lt.ptr_end is Some { rt } else { lt };
        let at = spec_common_type(pt, scale_type(it));
        lemma_casted_as_shape(Some(Box::new(po)), n.left, at);
        let c = *n.right.unwrap();
        let m = *c.left.unwrap();
        assert(shape(c) == shape(m));
        lemma_scaled_shape(m, pointee_size(pt), io, scale_type(it));
    }
}

/// The shape of what `new_sub` makes of `l - r` at the token `t`: the difference of the
/// shapes of `l` and `r`; a pointer minus the scaled integer; or, for two pointers, their
/// difference (without a token) divided by a number.
pub proof fn lemma_sub_shape(l: Node, r: Node, t: usize, n: Node)
    requires
        sub_shape(l, r, t, n),
    ensures
        shape(n) is Bin,
        at_of(shape(n)) == t,
        ({
            ||| kind_of(shape(n)) == Nodekind::SubNd && lhs(shape(n)) == shape(l) && rhs(shape(n)) == shape(r)
            ||| kind_of(shape(n)) == Nodekind::SubNd && lhs(shape(n)) == shape(l) && scaled(rhs(shape(n)))
                && rhs(rhs(shape(n))) == shape(r)
            ||| kind_of(shape(n)) == Nodekind::DivNd && lhs(shape(n)) is Bin && kind_of(lhs(shape(n)))
                == Nodekind::SubNd && at_of(lhs(shape(n))) == -1 && lhs(lhs(shape(n))) == shape(l) && rhs(
                lhs(shape(n)),
            ) == shape(r) && rhs(shape(n)) is Leaf && kind_of(rhs(shape(n))) == Nodekind::NumNd && at_of(
                rhs(shape(n)),
            ) == -1
        }),
        typed_type(r).unwrap().ptr_end is None ==> kind_of(shape(n)) == Nodekind::SubNd && lhs(shape(n)) == shape(l)
            && (rhs(shape(n)) == shape(r) || (scaled(rhs(shape(n))) && rhs(rhs(shape(n))) == shape(r))),
{
    let lt = typed_type(l).unwrap();
    let rt = typed_type(r).unwrap();
    if lt.ptr_end is None && rt.ptr_end is None {
        lemma_child_as_shape(Some(Box::new(l)), n.left);
        lemma_child_as_shape(Some(Box::new(r)), n.right);
    } else if rt.ptr_end is Some {
        let ct = arith_type(Some(lt), Some(rt)).unwrap();
        let d = *n.left.unwrap();
        lemma_casted_as_shape(Some(Box::new(l)), d.left, ct);
        lemma_casted_as_shape(Some(Box::new(r)), d.right, ct);
        lemma_shape_top(d);
        lemma_shape_top(*n.right.unwrap());
        lemma_shape_top(n);
    } else {
        lemma_child_as_shape(Some(Box::new(l)), n.left);
        let m = *n.right.unwrap();
        lemma_scaled_shape(m, pointee_size(lt), r, scale_type(rt));
    }
}

/// The shape of the typed assignment `l = r` at `token`: the assignment of the shapes of `l`
/// and `r`.
pub proof fn lemma_assign_shape(l: Node, r: Node, token: Option<usize>, n: Node)
    requires
        assign_shape(l, r, token, n),
    ensures
        shape(n) is Bin,
        kind_of(shape(n)) == Nodekind::AssignNd,
        shape(n) == (Shape::Bin {
            kind: Nodekind::AssignNd,
            token,
            left: Box::new(shape(l)),
            right: Box::new(shape(r)),
        }),
{
    lemma_child_as_shape(Some(Box::new(l)), n.left);
    lemma_casted_as_shape(Some(Box::new(r)), n.right, typed_type(l).unwrap());
}

} // verus!
