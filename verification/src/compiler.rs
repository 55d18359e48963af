//! The whole compiler: source lines to assembly text, by the tokenizer, the parser and the
//! code generator in turn.
use vstd::prelude::*;
use crate::assembly::Asm;
use crate::generator::{generate, trees_spec, more, Out};
use crate::node::{Node, Nodekind};
use crate::parser::{parse, literals_wf, Literal};
use crate::generator::literals_text;
use crate::token::CompileError;
use crate::tokenizer::{tokenize, scan_lines, lines_wf, lines_view, fail_msg, fail_pos};
use crate::assembly::asm_header;

verus! {

/// The assembly text that the generator writes for the declarations `trees` with the string
/// literals `lits`: the header, the literals, then the code of each declaration.
pub open spec fn program_text(trees: Seq<Node>, lits: Seq<Literal>) -> Result<Out, ()> {
    trees_spec(trees, 0, more(Out { code: asm_header(), ctrl: 0, func: 0 }, literals_text(lits)))
}

/// Compiles the source lines `code` (file 0) to assembly. An error of the tokenizer comes out
/// as the scan of the lines states it; otherwise the text is what the generator writes for
/// the global declarations that the parser read and the string literals that it collected.
pub fn compile(code: &Vec<Vec<char>>) -> (r: Result<Vec<char>, CompileError>)
    requires
        lines_wf(lines_view(code@)),
    ensures
        ({
            let (sc, l) = scan_lines(lines_view(code@), 0, false, 0, Seq::empty());
            sc.fail is Some ==> r is Err && r->Err_0.msg@ == fail_msg(sc.fail.unwrap()) && r->Err_0.line_num == l
                && r->Err_0.line_offset == fail_pos(sc.fail.unwrap())
        }),
        r matches Ok(text) ==> exists|trees: Seq<Node>, lits: Seq<Literal>|
            {
                &&& forall|i: int| 0 <= i < trees.len() ==> (#[trigger] trees[i]).kind == Nodekind::GlobalNd
                &&& literals_wf(lits)
                &&& #[trigger] program_text(trees, lits) == Ok::<Out, ()>(
                    Out { code: text@, ctrl: program_text(trees, lits)->Ok_0.ctrl, func: program_text(trees, lits)->Ok_0.func },
                )
            },
{
    let head = tokenize(code, 0)?;
    let (trees, literals, tokens) = parse(head)?;
    let mut out = Asm::new();
    generate(&mut out, &trees, &literals, &tokens)?;
    proof {
        assert(program_text(trees@, literals@) == Ok::<Out, ()>(
            Out { code: out.code@, ctrl: out.ctrl_count, func: out.func_count },
        ));
    }
    Ok(out.code)
}

} // verus!
