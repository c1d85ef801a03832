use crate::py2cpp::chance::{drawn, lemma_draws_assoc, lemma_drawn_add, lemma_no_draws};
use crate::py2cpp::constants::{
    ARRAY_MULTILINE, COMMENTS, DEC_FUN, HEAD_DEC_FUN, INSTRUCTIONS, MAIN, PARAMS, PARAMS_MULTILINE, SHIFT_LEFT,
};
use crate::py2cpp::copy::copy_param;
use crate::py2cpp::infer::{
    arguments_message, first_return_type, get_return_type, infer_fold, infer_params, records,
    with_params,
};
use crate::py2cpp::library::{lemma_sorted_set, sort_unique, sorted_set, sorted_unique};
use crate::py2cpp::context::{Context, SpecContext, functions_context};
use crate::py2cpp::instructions::append::{append_body, append_parse};
use crate::py2cpp::instructions::custom_fun::custom_spec;
use crate::py2cpp::instructions::declare::declare_spec;
use crate::py2cpp::instructions::for_loop::loop_spec;
use crate::py2cpp::instructions::print::print_parse;
use crate::py2cpp::instructions::return_stmt::return_parse;
use crate::py2cpp::instructions::{append, custom_fun, declare, for_loop, print, return_stmt};
use crate::py2cpp::instruction::insts_cpp;
use crate::py2cpp::pattern::{
    captures, captures_all, group, group_of, groups_within, regex_captures, regex_captures_all, regex_replace_all,
    replace_all,
};
use crate::py2cpp::text::{pop_char, replace_text, replaced};
use crate::py2cpp::ty::type_cpp;
use crate::py2cpp::types::{
    Code, Function, Instruction, Library, Param, Parsed, SpecCode, SpecFunction, SpecInstruction, SpecParam,
    Type, functions_view, instructions_view, lemma_instructions_view_add, lemma_instructions_view_push,
    lemma_libraries_view_add, libraries_view, no_instructions, outcome_view, params_view,
};
use crate::py2cpp::wf::{body_ok, depth_within, instructions_wf, loop_depth};
use vstd::prelude::*;
use vstd::string::*;

verus! {

// ---------------------------------------------------------------------------
// Reading the source text
// ---------------------------------------------------------------------------

/// The text of group 1 of each match, each followed by a line break.
pub open spec fn shifted(caps: Seq<Seq<Option<Seq<char>>>>, n: nat) -> Seq<char>
    decreases n,
{
    if n == 0 || n > caps.len() {
        Seq::empty()
    } else {
        shifted(caps, (n - 1) as nat) + group_of(caps[n - 1], 1) + "\n"@
    }
}

/// The lines of a block with their first level of indentation removed.
pub open spec fn shift_left(body: Seq<char>) -> Seq<char> {
    shifted(regex_captures_all(SHIFT_LEFT@, body), regex_captures_all(SHIFT_LEFT@, body).len())
}

/// The name and the parameters, all of undefined type, of a function header.
pub open spec fn header_info(header: Seq<char>) -> Option<(Seq<char>, Seq<SpecParam>)> {
    match regex_captures(HEAD_DEC_FUN@, header) {
        Some(c) => {
            let ps = regex_captures_all(PARAMS@, group_of(c, 2));
            Some(
                (
                    group_of(c, 1),
                    Seq::new(
                        ps.len(),
                        |k: int| SpecParam { type_: Type::Undefined, name: group_of(ps[k], 0) },
                    ),
                ),
            )
        },
        None => None,
    }
}

/// Joins onto one line, one at a time, the texts matched by `pattern`, until
/// none is left. Each text matched holds a line break, so each step makes the
/// code shorter; a step that would not stops the joining.
pub open spec fn joined(pattern: Seq<char>, code: Seq<char>) -> Seq<char>
    decreases code.len(),
{
    match regex_captures(pattern, code) {
        None => code,
        Some(c) => {
            let m = group_of(c, 0);
            if m.len() == 0 {
                code
            } else {
                let next = replaced(code, m, replaced(m, "\n"@, Seq::empty()));
                if next.len() < code.len() {
                    joined(pattern, next)
                } else {
                    code
                }
            }
        },
    }
}

/// The source without comments, with the parameter lists and the lists
/// that span lines joined onto one line.
pub open spec fn filtered(py_code: Seq<char>) -> Seq<char> {
    joined(
        ARRAY_MULTILINE@,
        joined(PARAMS_MULTILINE@, regex_replace_all(COMMENTS@, py_code, Seq::empty())),
    )
}

// ---------------------------------------------------------------------------
// Writing C++
// ---------------------------------------------------------------------------

/// The parameters of a C++ function header, separated by `, `.
pub open spec fn params_cpp(ps: Seq<SpecParam>, n: nat) -> Seq<char>
    decreases n,
{
    if n == 0 || n > ps.len() {
        Seq::empty()
    } else {
        params_cpp(ps, (n - 1) as nat) + (if n > 1 {
            ", "@
        } else {
            Seq::empty()
        }) + type_cpp(ps[n - 1].type_) + " "@ + ps[n - 1].name
    }
}

pub open spec fn has_generic(ps: Seq<SpecParam>) -> bool {
    exists|k: int| 0 <= k < ps.len() && (#[trigger] ps[k]).type_ == Type::Generic
}

/// A C++ function: a template header where a parameter is generic, the
/// signature, and the body one level deep.
pub open spec fn fun_cpp(f: SpecFunction) -> Seq<char> {
    (if has_generic(f.params) {
        "template <typename T>\n\n"@
    } else {
        Seq::empty()
    }) + type_cpp(f.type_) + " "@ + f.name + "("@ + params_cpp(f.params, f.params.len()) + ") {\n"@
        + insts_cpp(f.body, 1) + "}\n"@
}

pub open spec fn includes_cpp(libs: Seq<Seq<char>>, n: nat) -> Seq<char>
    decreases n,
{
    if n == 0 || n > libs.len() {
        Seq::empty()
    } else {
        includes_cpp(libs, (n - 1) as nat) + "#include <"@ + libs[n - 1] + ">\n"@
    }
}

pub open spec fn functions_cpp(fs: Seq<SpecFunction>, n: nat) -> Seq<char>
    decreases n,
{
    if n == 0 || n > fs.len() {
        Seq::empty()
    } else {
        functions_cpp(fs, (n - 1) as nat) + fun_cpp(fs[n - 1]) + "\n"@
    }
}

/// The whole C++ program: the includes, `using namespace std;` where there is
/// any include, and the functions separated by blank lines, without the last
/// line break.
pub open spec fn code_cpp(c: SpecCode) -> Seq<char> {
    (includes_cpp(c.libraries, c.libraries.len()) + "\n"@ + (if c.libraries.len() > 0 {
        "using namespace std;\n\n"@
    } else {
        Seq::empty()
    }) + functions_cpp(c.functions, c.functions.len())).drop_last()
}

/// Every function body has the shape that the generator reads.
pub open spec fn code_wf(c: SpecCode) -> bool {
    forall|k: int|
        0 <= k < c.functions.len() ==> {
            &&& instructions_wf(#[trigger] c.functions[k].body)
            &&& 1 + loop_depth(c.functions[k].body) <= u32::MAX
        }
}

// ---------------------------------------------------------------------------
// Reading a block of instructions
// ---------------------------------------------------------------------------

/// What reading a block changes besides its own result: the program's
/// libraries, the enclosing body that `append` retypes, the context, and the
/// numbers not drawn yet.
pub ghost struct Scan {
    pub libraries: Seq<Seq<char>>,
    pub body: Seq<SpecInstruction>,
    pub ctx: SpecContext,
    pub draws: Seq<nat>,
}

/// The results of the parsers of one line, gathered in order: the first
/// refusal, or the libraries and instructions of each line read and whether
/// any parser read it.
pub ghost struct Gathered {
    pub error: Option<Seq<char>>,
    pub libraries: Seq<Seq<char>>,
    pub out: Seq<SpecInstruction>,
    pub matched: bool,
}

pub open spec fn absorb_spec(g: Gathered, p: Result<Parsed, Seq<char>>) -> Gathered {
    if g.error is Some {
        g
    } else {
        match p {
            Err(e) => Gathered { error: Some(e), ..g },
            Ok(None) => g,
            Ok(Some((is, ls))) => Gathered {
                error: None,
                libraries: g.libraries + ls,
                out: g.out + is,
                matched: true,
            },
        }
    }
}

/// The result of reading one line of a block: the instructions so far,
/// whether the line was read, and whether reading stops there.
pub type LineStep = (Result<(Seq<SpecInstruction>, bool, bool), Seq<char>>, Scan);

/// One line `content` of the block `text`. Every parser runs on it, in
/// this order: `print`, an assignment, a call of a function of the program,
/// `append`, a `for` block and `return`; then their results are taken in the
/// same order, the first refusal refusing the line. A line is never longer
/// than its block; where it were, it would not be read as a `for` block.
pub open spec fn line_spec(
    libs: Seq<Seq<char>>,
    fb: Seq<SpecInstruction>,
    out: Seq<SpecInstruction>,
    ctx: SpecContext,
    ds: Seq<nat>,
    text: Seq<char>,
    content: Seq<char>,
) -> LineStep
    decreases text.len(), 1nat, 0nat,
{
    let p1 = print_parse(ctx, content, true);
    let (p2, c2, d2) = declare_spec(ctx, content, ds);
    let (p3, c3, d3) = custom_spec(c2, content, d2);
    let fb4 = append_body(c3, fb, content);
    let p4: Result<Parsed, Seq<char>> = Ok(append_parse(content));
    let (p5, s5) = if content.len() <= text.len() {
        loop_spec(libs, out, c3, d3, content)
    } else {
        (Ok(None), Scan { libraries: libs, body: out, ctx: c3, draws: d3 })
    };
    let p6 = return_parse(s5.body, s5.ctx, content);
    let g0 = Gathered { error: None, libraries: s5.libraries, out: s5.body, matched: false };
    let g = absorb_spec(absorb_spec(absorb_spec(absorb_spec(absorb_spec(absorb_spec(g0, p1), p2), p3), p4), p5), p6);
    let s = Scan { libraries: g.libraries, body: fb4, ctx: s5.ctx, draws: s5.draws };
    match g.error {
        Some(e) => (Err(e), s),
        None => (Ok((g.out, g.matched, !g.matched)), s),
    }
}

/// The first `n` lines of the block `text`, read in order until one is
/// refused or not read.
pub open spec fn lines_spec(
    libs: Seq<Seq<char>>,
    fb: Seq<SpecInstruction>,
    ctx: SpecContext,
    ds: Seq<nat>,
    text: Seq<char>,
    caps: Seq<Seq<Option<Seq<char>>>>,
    n: nat,
) -> LineStep
    decreases text.len(), 2nat, n,
{
    if n == 0 || n > caps.len() {
        (Ok((Seq::empty(), false, false)), Scan { libraries: libs, body: fb, ctx, draws: ds })
    } else {
        let (prev, s) = lines_spec(libs, fb, ctx, ds, text, caps, (n - 1) as nat);
        match prev {
            Err(e) => (Err(e), s),
            Ok((out, m, stopped)) => if stopped {
                (Ok((out, m, stopped)), s)
            } else {
                line_spec(s.libraries, s.body, out, s.ctx, s.draws, text, group_of(caps[n - 1], 1))
            },
        }
    }
}

/// The instructions of the block `text`, one line (or one `for` block) at a
/// time; refused where a line is refused, and with `Comando no identificado`
/// where a line is not read or there is no line.
pub open spec fn gi_spec(
    libs: Seq<Seq<char>>,
    fb: Seq<SpecInstruction>,
    ctx: SpecContext,
    ds: Seq<nat>,
    text: Seq<char>,
) -> (Result<Seq<SpecInstruction>, Seq<char>>, Scan)
    decreases text.len(), 3nat, 0nat,
{
    let caps = regex_captures_all(INSTRUCTIONS@, text);
    let (res, s) = lines_spec(libs, fb, ctx, ds, text, caps, caps.len());
    match res {
        Err(e) => (Err(e), s),
        Ok((out, m, _)) => (
            if m {
                Ok(out)
            } else {
                Err("Comando no identificado"@)
            },
            s,
        ),
    }
}

pub open spec fn block_view(r: Result<Vec<Instruction>, String>) -> Result<Seq<SpecInstruction>, Seq<char>> {
    match r {
        Ok(is) => Ok(instructions_view(is@)),
        Err(e) => Err(e@),
    }
}

pub open spec fn line_view(r: Result<bool, String>, out: Seq<SpecInstruction>) -> Result<
    (Seq<SpecInstruction>, bool, bool),
    Seq<char>,
> {
    match r {
        Ok(m) => Ok((out, m, !m)),
        Err(e) => Err(e@),
    }
}

proof fn lemma_lines_stay(
    libs: Seq<Seq<char>>,
    fb: Seq<SpecInstruction>,
    ctx: SpecContext,
    ds: Seq<nat>,
    text: Seq<char>,
    caps: Seq<Seq<Option<Seq<char>>>>,
    n: nat,
    m: nat,
)
    requires
        n <= m <= caps.len(),
        match lines_spec(libs, fb, ctx, ds, text, caps, n).0 {
            Err(_) => true,
            Ok((_, _, stopped)) => stopped,
        },
    ensures
        lines_spec(libs, fb, ctx, ds, text, caps, m) == lines_spec(libs, fb, ctx, ds, text, caps, n),
    decreases m - n,
{
    if m > n {
        lemma_lines_stay(libs, fb, ctx, ds, text, caps, n, (m - 1) as nat);
    }
}

pub open spec fn gathered(
    error: Option<Seq<char>>,
    libraries: Seq<Seq<char>>,
    out: Seq<SpecInstruction>,
    matched: bool,
) -> Gathered {
    Gathered { error, libraries, out, matched }
}

pub open spec fn error_view(r: Option<String>) -> Option<Seq<char>> {
    match r {
        Some(e) => Some(e@),
        None => None,
    }
}

/// Adds one parser's result to what a line has gathered.
fn absorb(
    libraries: &mut Vec<Library>,
    out: &mut Vec<Instruction>,
    matched: &mut bool,
    p: Result<Option<(Vec<Instruction>, Vec<Library>)>, String>,
) -> (r: Option<String>)
    ensures
        absorb_spec(
            gathered(None, libraries_view(old(libraries)@), instructions_view(old(out)@), *old(matched)),
            outcome_view(p),
        ) == gathered(
            error_view(r),
            libraries_view(final(libraries)@),
            instructions_view(final(out)@),
            *final(matched),
        ),
{
    match p {
        Err(e) => Some(e),
        Ok(None) => None,
        Ok(Some((mut is, mut ls))) => {
            proof {
                lemma_libraries_view_add(libraries@, ls@);
                lemma_instructions_view_add(out@, is@);
            }
            libraries.append(&mut ls);
            out.append(&mut is);
            *matched = true;
            None
        },
    }
}

// ---------------------------------------------------------------------------
// Reading a whole program
// ---------------------------------------------------------------------------

/// The text of group 0 of each match, each followed by a line break.
pub open spec fn main_lines(caps: Seq<Seq<Option<Seq<char>>>>, n: nat) -> Seq<char>
    decreases n,
{
    if n == 0 || n > caps.len() {
        Seq::empty()
    } else {
        main_lines(caps, (n - 1) as nat) + group_of(caps[n - 1], 0) + "\n"@
    }
}

/// The lines of the program that stand outside its functions.
pub open spec fn main_text(py: Seq<char>) -> Seq<char> {
    main_lines(regex_captures_all(MAIN@, py), regex_captures_all(MAIN@, py).len())
}

/// `int main()` with the body `b` and `return 0;` at its end.
pub open spec fn main_function(b: Seq<SpecInstruction>) -> SpecFunction {
    SpecFunction {
        type_: Type::Int,
        name: "main"@,
        params: Seq::empty(),
        body: b.push(SpecInstruction::Return { type_: Type::Int, value: "0"@ }),
    }
}

/// The function `main`: the lines outside the functions, read with the
/// functions `fs` in scope; with the libraries after it and the draws left.
#[verifier::opaque]
pub open spec fn main_spec(libs: Seq<Seq<char>>, fs: Seq<SpecFunction>, ds: Seq<nat>, py: Seq<char>) -> (
    Result<SpecFunction, Seq<char>>,
    Seq<Seq<char>>,
    Seq<nat>,
) {
    let (res, s) = gi_spec(libs, Seq::empty(), functions_context(fs), ds, main_text(py));
    (
        match res {
            Ok(b) => Ok(main_function(b)),
            Err(e) => Err(e),
        },
        s.libraries,
        s.draws,
    )
}

/// The refusal of a function header that the transpiler cannot read.
pub open spec fn header_message() -> Seq<char> {
    "Encabezado de función no válido"@
}

/// One function `def name(params):` matched with the groups `cap`: its
/// body read with the functions before it and its parameters in scope, and
/// its type that of its first `return`.
#[verifier::opaque]
pub open spec fn function_spec(
    libs: Seq<Seq<char>>,
    fs: Seq<SpecFunction>,
    ds: Seq<nat>,
    cap: Seq<Option<Seq<char>>>,
) -> (Option<Seq<char>>, Seq<Seq<char>>, Seq<SpecFunction>, Seq<nat>) {
    match header_info(group_of(cap, 0)) {
        None => (Some(header_message()), libs, fs, ds),
        Some((name, params)) => {
            let ctx = with_params(functions_context(fs), params, params.len());
            let (res, s) = gi_spec(libs, Seq::empty(), ctx, ds, shift_left(group_of(cap, 1)));
            match res {
                Err(e) => (Some(e), s.libraries, fs, s.draws),
                Ok(b) => (
                    None,
                    s.libraries,
                    fs.push(SpecFunction { type_: first_return_type(b), name, params, body: b }),
                    s.draws,
                ),
            }
        },
    }
}

/// The first `n` functions of the program, read in order until one is refused.
pub open spec fn functions_fold(
    libs: Seq<Seq<char>>,
    fs: Seq<SpecFunction>,
    ds: Seq<nat>,
    caps: Seq<Seq<Option<Seq<char>>>>,
    n: nat,
) -> (Option<Seq<char>>, Seq<Seq<char>>, Seq<SpecFunction>, Seq<nat>)
    decreases n,
{
    if n == 0 || n > caps.len() {
        (None, libs, fs, ds)
    } else {
        let (e, l, f, d) = functions_fold(libs, fs, ds, caps, (n - 1) as nat);
        if e is Some {
            (e, l, f, d)
        } else {
            function_spec(l, f, d, caps[n - 1])
        }
    }
}

/// The refusal of a body with a call or an expression whose parts the
/// generator cannot find.
pub open spec fn shape_message() -> Seq<char> {
    "Instrucción no válida"@
}

/// Every body has the shape that the generator reads.
pub open spec fn bodies_wf(fs: Seq<SpecFunction>) -> bool {
    forall|k: int| 0 <= k < fs.len() ==> instructions_wf(#[trigger] fs[k].body)
}

/// The program once read: refused where a body has the wrong shape;
/// otherwise with the parameter types inferred from the calls (or refused by
/// that inference), and the libraries ordered by name, each once.
pub open spec fn checked_code(c: SpecCode) -> Result<SpecCode, Seq<char>> {
    if !bodies_wf(c.functions) {
        Err(shape_message())
    } else {
        let fs = c.functions;
        let (fs2, _, e) = infer_fold(fs, records(fs, fs.len()), functions_context(fs), fs.len());
        match e {
            Some(m) => Err(m),
            None => Ok(SpecCode { libraries: sorted_set(c.libraries), functions: fs2 }),
        }
    }
}

/// A Python program read into its functions and `main`, with the draws left.
pub open spec fn program_spec(py: Seq<char>, ds: Seq<nat>) -> (Result<SpecCode, Seq<char>>, Seq<nat>) {
    let caps = regex_captures_all(DEC_FUN@, py);
    let (e, libs, fs, d1) = functions_fold(Seq::empty(), Seq::empty(), ds, caps, caps.len());
    match e {
        Some(m) => (Err(m), d1),
        None => {
            let (res, libs2, d2) = main_spec(libs, fs, d1, py);
            match res {
                Err(m) => (Err(m), d2),
                Ok(main) => (checked_code(SpecCode { libraries: libs2, functions: fs.push(main) }), d2),
            }
        },
    }
}

/// The refusal of a program whose loops nest too deep to be indented.
pub open spec fn depth_message() -> Seq<char> {
    "Demasiados ciclos anidados"@
}

/// The C++ text of a program read, or its refusal.
pub open spec fn cpp_of(res: Result<SpecCode, Seq<char>>) -> Result<Seq<char>, Seq<char>> {
    match res {
        Err(e) => Err(e),
        Ok(c) => if code_wf(c) {
            Ok(code_cpp(c))
        } else {
            Err(depth_message())
        },
    }
}

pub open spec fn code_view(r: Result<Code, String>) -> Result<SpecCode, Seq<char>> {
    match r {
        Ok(c) => Ok(c@),
        Err(e) => Err(e@),
    }
}

pub open spec fn function_view(r: Result<Function, String>) -> Result<SpecFunction, Seq<char>> {
    match r {
        Ok(f) => Ok(f@),
        Err(e) => Err(e@),
    }
}

pub open spec fn text_view(r: Result<String, String>) -> Result<Seq<char>, Seq<char>> {
    match r {
        Ok(t) => Ok(t@),
        Err(e) => Err(e@),
    }
}

impl Code {
    fn create_code() -> (r: Code)
        ensures
            r@.libraries.len() == 0,
            r@.functions.len() == 0,
    {
        Code { libraries: Vec::new(), functions: Vec::new() }
    }

    fn get_header_info(header: &str) -> (r: Option<(String, Vec<Param>)>)
        ensures
            match r {
                Some((name, params)) => header_info(header@) == Some((name@, params_view(params@))),
                None => header_info(header@) is None,
            },
    {
        match captures(HEAD_DEC_FUN, header) {
            Some(cap) => {
                let name = group(&cap, 1);
                let params_text = group(&cap, 2);
                let caps = captures_all(PARAMS, params_text.as_str());
                let ghost ps = regex_captures_all(PARAMS@, params_text@);
                let mut params: Vec<Param> = Vec::new();
                let mut k: usize = 0;
                while k < caps.len()
                    invariant
                        caps.deep_view() == ps,
                        k <= caps@.len(),
                        params_view(params@) =~= Seq::new(
                            k as nat,
                            |j: int| SpecParam { type_: Type::Undefined, name: group_of(ps[j], 0) },
                        ),
                    decreases caps@.len() - k,
                {
                    let name = group(&caps[k], 0);
                    proof {
                        assert(caps.deep_view()[k as int] == caps@[k as int].deep_view());
                    }
                    let param = Param { type_: Type::Undefined, name };
                    proof {
                        assert(params_view(params@.push(param)) =~= params_view(params@).push(param@));
                    }
                    params.push(param);
                    k = k + 1;
                }
                Some((name, params))
            },
            None => None,
        }
    }

    /// Reads one line `content` of the block `text` into `out`, the block's
    /// instructions so far; says whether a parser read it.
    fn read_line(
        &mut self,
        fun_body: &mut Vec<Instruction>,
        out: &mut Vec<Instruction>,
        context: &mut Context,
        text: &str,
        content: &str,
    ) -> (r: Result<bool, String>)
        requires
            content@.len() <= text@.len(),
        ensures
            final(self)@.functions == old(self)@.functions,
            exists|d: Seq<nat>|
                drawn(d) && forall|x: Seq<nat>|
                    #[trigger] line_spec(
                        old(self)@.libraries,
                        instructions_view(old(fun_body)@),
                        instructions_view(old(out)@),
                        old(context)@,
                        d + x,
                        text@,
                        content@,
                    ) == (
                        line_view(r, instructions_view(final(out)@)),
                        Scan {
                            libraries: final(self)@.libraries,
                            body: instructions_view(final(fun_body)@),
                            ctx: final(context)@,
                            draws: x,
                        },
                    ),
        decreases text@.len(), 1nat,
    {
        let ghost libs0 = self@.libraries;
        let ghost fb0 = instructions_view(fun_body@);
        let ghost out0 = instructions_view(out@);
        let ghost ctx0 = context@;
        let r1 = print::py2code(context, content, true);
        let ghost p1 = outcome_view(r1);
        let r2 = declare::py2code(context, content);
        let ghost p2 = outcome_view(r2);
        let ghost c2 = context@;
        let ghost d2 = choose|d: Seq<nat>|
            drawn(d) && forall|x: Seq<nat>| #[trigger] declare_spec(ctx0, content@, d + x) == (p2, c2, x);
        let r3 = custom_fun::py2code(context, content);
        let ghost p3 = outcome_view(r3);
        let ghost c3 = context@;
        let ghost d3 = choose|d: Seq<nat>|
            drawn(d) && forall|x: Seq<nat>| #[trigger] custom_spec(c2, content@, d + x) == (p3, c3, x);
        let a4 = append::py2code(context, fun_body, content);
        let r4: Result<Option<(Vec<Instruction>, Vec<Library>)>, String> = Ok(a4);
        let ghost p4 = outcome_view(r4);
        let ghost fb4 = instructions_view(fun_body@);
        let r5 = for_loop::py2code(self, out, context, content);
        let ghost p5 = outcome_view(r5);
        let ghost s5 = Scan {
            libraries: self@.libraries,
            body: instructions_view(out@),
            ctx: context@,
            draws: Seq::<nat>::empty(),
        };
        let ghost d5 = choose|d: Seq<nat>|
            drawn(d) && forall|x: Seq<nat>|
                #[trigger] loop_spec(libs0, out0, c3, d + x, content@) == (p5, Scan { draws: x, ..s5 });
        let r6 = return_stmt::py2code(out, context, content);
        let ghost p6 = outcome_view(r6);
        let ghost g0 = Gathered { error: None, libraries: s5.libraries, out: s5.body, matched: false };
        let ghost g1 = absorb_spec(g0, p1);
        let ghost g2 = absorb_spec(g1, p2);
        let ghost g3 = absorb_spec(g2, p3);
        let ghost g4 = absorb_spec(g3, p4);
        let ghost g5 = absorb_spec(g4, p5);
        let ghost g6 = absorb_spec(g5, p6);
        let ghost d = d2 + d3 + d5;
        proof {
            lemma_drawn_add(d2, d3);
            lemma_drawn_add(d2 + d3, d5);
            assert forall|x: Seq<nat>|
                #[trigger] line_spec(libs0, fb0, out0, ctx0, d + x, text@, content@) == (
                    match g6.error {
                        Some(e) => Err(e),
                        None => Ok((g6.out, g6.matched, !g6.matched)),
                    },
                    Scan { libraries: g6.libraries, body: fb4, ctx: s5.ctx, draws: x },
                ) by {
                lemma_draws_assoc(d2 + d3, d5, x);
                lemma_draws_assoc(d2, d3, d5 + x);
                assert(declare_spec(ctx0, content@, d2 + (d3 + (d5 + x))) == (p2, c2, d3 + (d5 + x)));
                assert(custom_spec(c2, content@, d3 + (d5 + x)) == (p3, c3, d5 + x));
                assert(loop_spec(libs0, out0, c3, d5 + x, content@) == (p5, Scan { draws: x, ..s5 }));
            }
        }
        let mut matched = false;
        let ghost libs_g0 = libraries_view(self.libraries@);
        match absorb(&mut self.libraries, out, &mut matched, r1) {
            Some(e) => {
                return Err(e);
            },
            None => {},
        }
        match absorb(&mut self.libraries, out, &mut matched, r2) {
            Some(e) => {
                return Err(e);
            },
            None => {},
        }
        match absorb(&mut self.libraries, out, &mut matched, r3) {
            Some(e) => {
                return Err(e);
            },
            None => {},
        }
        match absorb(&mut self.libraries, out, &mut matched, r4) {
            Some(e) => {
                return Err(e);
            },
            None => {},
        }
        match absorb(&mut self.libraries, out, &mut matched, r5) {
            Some(e) => {
                return Err(e);
            },
            None => {},
        }
        match absorb(&mut self.libraries, out, &mut matched, r6) {
            Some(e) => {
                return Err(e);
            },
            None => {},
        }
        Ok(matched)
    }

    /// The instructions of the block `body`, read line by line; the
    /// libraries that they need are added to the program, and an `append`
    /// retypes the vectors declared in `fun_body`.
    #[verifier::loop_isolation(false)]
    pub fn get_instructions(&mut self, fun_body: &mut Vec<Instruction>, context: &mut Context, body: String) -> (r: Result<
        Vec<Instruction>,
        String,
    >)
        ensures
            final(self)@.functions == old(self)@.functions,
            exists|d: Seq<nat>|
                drawn(d) && forall|x: Seq<nat>|
                    #[trigger] gi_spec(
                        old(self)@.libraries,
                        instructions_view(old(fun_body)@),
                        old(context)@,
                        d + x,
                        body@,
                    ) == (
                        block_view(r),
                        Scan {
                            libraries: final(self)@.libraries,
                            body: instructions_view(final(fun_body)@),
                            ctx: final(context)@,
                            draws: x,
                        },
                    ),
        decreases body@.len(), 2nat,
    {
        let ghost libs0 = self@.libraries;
        let ghost fb0 = instructions_view(fun_body@);
        let ghost ctx0 = context@;
        let ghost fs0 = self@.functions;
        proof {
            lemma_no_draws();
        }
        let caps = captures_all(INSTRUCTIONS, body.as_str());
        let ghost cs = regex_captures_all(INSTRUCTIONS@, body@);
        let mut out = no_instructions();
        let mut matched = false;
        let mut stopped = false;
        let ghost mut d: Seq<nat> = Seq::empty();
        let mut k: usize = 0;
        while k < caps.len() && !stopped
            invariant
                caps.deep_view() == cs,
                k <= cs.len(),
                drawn(d),
                self@.functions == fs0,
                forall|x: Seq<nat>|
                    #[trigger] lines_spec(libs0, fb0, ctx0, d + x, body@, cs, k as nat) == (
                        Ok::<(Seq<SpecInstruction>, bool, bool), Seq<char>>(
                            (instructions_view(out@), matched, stopped),
                        ),
                        Scan {
                            libraries: self@.libraries,
                            body: instructions_view(fun_body@),
                            ctx: context@,
                            draws: x,
                        },
                    ),
            decreases cs.len() - k,
        {
            let content = group(&caps[k], 1);
            proof {
                assert(cs[k as int] == caps@[k as int].deep_view());
                assert(groups_within(cs[k as int], body@));
            }
            let ghost libs_k = self@.libraries;
            let ghost fb_k = instructions_view(fun_body@);
            let ghost out_k = instructions_view(out@);
            let ghost ctx_k = context@;
            let step = self.read_line(fun_body, &mut out, context, body.as_str(), content.as_str());
            let ghost o = line_view(step, instructions_view(out@));
            let ghost s1 = Scan {
                libraries: self@.libraries,
                body: instructions_view(fun_body@),
                ctx: context@,
                draws: Seq::<nat>::empty(),
            };
            let ghost d1 = choose|d1: Seq<nat>|
                drawn(d1) && forall|x: Seq<nat>|
                    #[trigger] line_spec(libs_k, fb_k, out_k, ctx_k, d1 + x, body@, content@) == (
                        o,
                        Scan { draws: x, ..s1 },
                    );
            proof {
                lemma_drawn_add(d, d1);
                assert forall|x: Seq<nat>|
                    #[trigger] lines_spec(libs0, fb0, ctx0, (d + d1) + x, body@, cs, (k + 1) as nat) == (
                        o,
                        Scan { draws: x, ..s1 },
                    ) by {
                    lemma_draws_assoc(d, d1, x);
                    assert(lines_spec(libs0, fb0, ctx0, d + (d1 + x), body@, cs, k as nat) == (
                        Ok::<(Seq<SpecInstruction>, bool, bool), Seq<char>>((out_k, matched, stopped)),
                        Scan { libraries: libs_k, body: fb_k, ctx: ctx_k, draws: d1 + x },
                    ));
                    assert(line_spec(libs_k, fb_k, out_k, ctx_k, d1 + x, body@, content@) == (
                        o,
                        Scan { draws: x, ..s1 },
                    ));
                }
            }
            match step {
                Err(e) => {
                    let r: Result<Vec<Instruction>, String> = Err(e);
                    proof {
                        assert forall|x: Seq<nat>|
                            #[trigger] gi_spec(libs0, fb0, ctx0, (d + d1) + x, body@) == (
                                block_view(r),
                                Scan { draws: x, ..s1 },
                            ) by {
                            lemma_lines_stay(libs0, fb0, ctx0, (d + d1) + x, body@, cs, (k + 1) as nat, cs.len());
                        }
                    }
                    return r;
                },
                Ok(m) => {
                    matched = m;
                    stopped = !m;
                    proof {
                        d = d + d1;
                    }
                },
            }
            k = k + 1;
        }
        proof {
            if k < cs.len() {
                assert forall|x: Seq<nat>|
                    #[trigger] lines_spec(libs0, fb0, ctx0, d + x, body@, cs, cs.len()) == lines_spec(
                        libs0,
                        fb0,
                        ctx0,
                        d + x,
                        body@,
                        cs,
                        k as nat,
                    ) by {
                    lemma_lines_stay(libs0, fb0, ctx0, d + x, body@, cs, k as nat, cs.len());
                }
            }
        }
        let ghost s_end = Scan {
            libraries: self@.libraries,
            body: instructions_view(fun_body@),
            ctx: context@,
            draws: Seq::<nat>::empty(),
        };
        let r: Result<Vec<Instruction>, String> = if matched {
            Ok(out)
        } else {
            Err(String::from_str("Comando no identificado"))
        };
        proof {
            assert forall|x: Seq<nat>|
                #[trigger] gi_spec(libs0, fb0, ctx0, d + x, body@) == (block_view(r), Scan { draws: x, ..s_end }) by {
                assert(lines_spec(libs0, fb0, ctx0, d + x, body@, cs, cs.len()).1 == Scan { draws: x, ..s_end });
            }
        }
        r
    }

    /// The function `main`: the lines of `py_code` outside the functions,
    /// read with the functions of the program in scope, then `return 0;`.
    fn get_main(&mut self, py_code: &str) -> (r: Result<Function, String>)
        ensures
            final(self)@.functions == old(self)@.functions,
            exists|d: Seq<nat>|
                drawn(d) && forall|x: Seq<nat>|
                    #[trigger] main_spec(old(self)@.libraries, old(self)@.functions, d + x, py_code@) == (
                        function_view(r),
                        final(self)@.libraries,
                        x,
                    ),
    {
        let ghost libs0 = self@.libraries;
        let ghost fs0 = self@.functions;
        let caps = captures_all(MAIN, py_code);
        let ghost cs = regex_captures_all(MAIN@, py_code@);
        let mut body = String::new();
        proof {
            reveal_strlit("");
        }
        let mut k: usize = 0;
        while k < caps.len()
            invariant
                caps.deep_view() == cs,
                k <= cs.len(),
                body@ == main_lines(cs, k as nat),
            decreases cs.len() - k,
        {
            let line = group(&caps[k], 0);
            proof {
                assert(cs[k as int] == caps@[k as int].deep_view());
            }
            body.append(line.as_str());
            body.append("\n");
            k = k + 1;
        }
        let mut context = Context::get_fun_types(self);
        let ghost ctx0 = context@;
        let mut fun_body = no_instructions();
        let ghost bv = body@;
        let read = self.get_instructions(&mut fun_body, &mut context, body);
        let ghost o = block_view(read);
        let ghost libs1 = self@.libraries;
        let ghost d = choose|d: Seq<nat>|
            drawn(d) && forall|x: Seq<nat>|
                #[trigger] gi_spec(libs0, Seq::<SpecInstruction>::empty(), ctx0, d + x, bv) == (
                    o,
                    Scan { libraries: libs1, body: instructions_view(fun_body@), ctx: context@, draws: x },
                );
        let r: Result<Function, String> = match read {
            Ok(mut instructions) => {
                let ret = Instruction::Return { type_: Type::Int, value: String::from_str("0") };
                proof {
                    lemma_instructions_view_push(instructions@, ret);
                    reveal_strlit("0");
                }
                instructions.push(ret);
                Ok(Function { type_: Type::Int, name: String::from_str("main"), params: Vec::new(), body: instructions })
            },
            Err(e) => Err(e),
        };
        proof {
            reveal(main_spec);
            assert forall|x: Seq<nat>|
                #[trigger] main_spec(libs0, fs0, d + x, py_code@) == (function_view(r), libs1, x) by {
                assert(gi_spec(libs0, Seq::<SpecInstruction>::empty(), ctx0, d + x, bv) == (
                    o,
                    Scan { libraries: libs1, body: instructions_view(fun_body@), ctx: context@, draws: x },
                ));
                match r {
                    Ok(f) => {
                        assert(params_view(f.params@) =~= Seq::<SpecParam>::empty());
                    },
                    Err(_) => {},
                }
            }
        }
        r
    }

    /// Reads one function of the program, matched with the groups `cap`,
    /// and adds it to the functions; gives the refusal, if any.
    fn read_function(&mut self, cap: &Vec<Option<String>>) -> (r: Option<String>)
        ensures
            exists|d: Seq<nat>|
                drawn(d) && forall|x: Seq<nat>|
                    #[trigger] function_spec(old(self)@.libraries, old(self)@.functions, d + x, cap.deep_view()) == (
                        error_view(r),
                        final(self)@.libraries,
                        final(self)@.functions,
                        x,
                    ),
    {
        let ghost libs0 = self@.libraries;
        let ghost fs0 = self@.functions;
        proof {
            lemma_no_draws();
            reveal(function_spec);
        }
        let text = group(cap, 1);
        let body = Self::shift_code_left(text.as_str());
        let header = group(cap, 0);
        let mut context = Context::get_fun_types(self);
        let ghost ctx0 = context@;
        match Self::get_header_info(header.as_str()) {
            None => Some(String::from_str("Encabezado de función no válido")),
            Some((name, params)) => {
                let ghost pv = params_view(params@);
                let mut k: usize = 0;
                while k < params.len()
                    invariant
                        pv == params_view(params@),
                        k <= params@.len(),
                        context@ == with_params(ctx0, pv, k as nat),
                    decreases params@.len() - k,
                {
                    let p = copy_param(&params[k]);
                    let single = vec![p];
                    proof {
                        assert(params_view(single@) =~= seq![pv[k as int]]);
                    }
                    context.insert(params[k].name.clone(), single);
                    k = k + 1;
                }
                let ghost ctx1 = context@;
                let ghost bv = body@;
                let mut fun_body = no_instructions();
                let read = self.get_instructions(&mut fun_body, &mut context, body);
                let ghost o = block_view(read);
                let ghost libs1 = self@.libraries;
                let ghost d = choose|d: Seq<nat>|
                    drawn(d) && forall|x: Seq<nat>|
                        #[trigger] gi_spec(libs0, Seq::<SpecInstruction>::empty(), ctx1, d + x, bv) == (
                            o,
                            Scan { libraries: libs1, body: instructions_view(fun_body@), ctx: context@, draws: x },
                        );
                let r = match read {
                    Err(e) => Some(e),
                    Ok(mut instructions) => {
                        let type_ = get_return_type(&mut instructions);
                        let function = Function { type_, name, params, body: instructions };
                        proof {
                            assert(functions_view(self.functions@.push(function)) =~= functions_view(self.functions@).push(function@));
                        }
                        self.functions.push(function);
                        None
                    },
                };
                proof {
                    assert forall|x: Seq<nat>|
                        #[trigger] function_spec(libs0, fs0, d + x, cap.deep_view()) == (
                            error_view(r),
                            self@.libraries,
                            self@.functions,
                            x,
                        ) by {
                        assert(gi_spec(libs0, Seq::<SpecInstruction>::empty(), ctx1, d + x, bv) == (
                            o,
                            Scan { libraries: libs1, body: instructions_view(fun_body@), ctx: context@, draws: x },
                        ));
                    }
                }
                r
            },
        }
    }

    /// Reads the functions matched in `caps`, in order, until one is refused;
    /// gives the refusal, if any.
    #[verifier::loop_isolation(false)]
    fn read_functions(&mut self, caps: &Vec<Vec<Option<String>>>) -> (r: Option<String>)
        ensures
            exists|d: Seq<nat>|
                drawn(d) && forall|x: Seq<nat>|
                    #[trigger] functions_fold(
                        old(self)@.libraries,
                        old(self)@.functions,
                        d + x,
                        caps.deep_view(),
                        caps@.len() as nat,
                    ) == (error_view(r), final(self)@.libraries, final(self)@.functions, x),
    {
        let ghost libs0 = self@.libraries;
        let ghost fs0 = self@.functions;
        let ghost cs = caps.deep_view();
        proof {
            lemma_no_draws();
        }
        let ghost mut d: Seq<nat> = Seq::empty();
        let mut k: usize = 0;
        while k < caps.len()
            invariant
                cs == caps.deep_view(),
                cs.len() == caps@.len(),
                k <= cs.len(),
                drawn(d),
                forall|x: Seq<nat>|
                    #[trigger] functions_fold(libs0, fs0, d + x, cs, k as nat) == (
                        None::<Seq<char>>,
                        self@.libraries,
                        self@.functions,
                        x,
                    ),
            decreases cs.len() - k,
        {
            proof {
                assert(cs[k as int] == caps@[k as int].deep_view());
            }
            let ghost libs_k = self@.libraries;
            let ghost fs_k = self@.functions;
            let step = self.read_function(&caps[k]);
            let ghost e = error_view(step);
            let ghost d1 = choose|d1: Seq<nat>|
                drawn(d1) && forall|x: Seq<nat>|
                    #[trigger] function_spec(libs_k, fs_k, d1 + x, cs[k as int]) == (
                        e,
                        self@.libraries,
                        self@.functions,
                        x,
                    );
            let ghost dn = d + d1;
            proof {
                lemma_drawn_add(d, d1);
                assert forall|x: Seq<nat>|
                    #[trigger] functions_fold(libs0, fs0, dn + x, cs, (k + 1) as nat) == (
                        e,
                        self@.libraries,
                        self@.functions,
                        x,
                    ) by {
                    lemma_draws_assoc(d, d1, x);
                    assert(functions_fold(libs0, fs0, d + (d1 + x), cs, k as nat) == (
                        None::<Seq<char>>,
                        libs_k,
                        fs_k,
                        d1 + x,
                    ));
                    assert(function_spec(libs_k, fs_k, d1 + x, cs[k as int]) == (e, self@.libraries, self@.functions, x));
                }
            }
            match step {
                Some(m) => {
                    let r = Some(m);
                    proof {
                        assert forall|x: Seq<nat>|
                            #[trigger] functions_fold(libs0, fs0, dn + x, cs, cs.len()) == (
                                error_view(r),
                                self@.libraries,
                                self@.functions,
                                x,
                            ) by {
                            lemma_functions_fold_stays(libs0, fs0, dn + x, cs, (k + 1) as nat, cs.len());
                        }
                    }
                    return r;
                },
                None => {
                    proof {
                        d = dn;
                    }
                },
            }
            k = k + 1;
        }
        None
    }

    /// Reads a Python program into its functions and `main`, infers the
    /// types of the parameters from the calls, and orders the libraries.
    /// A body whose calls or expressions lack the parts that the generator
    /// reads is refused before the inference, and a call with fewer arguments
    /// than its function has parameters when the inference reaches it.
    #[verifier::loop_isolation(false)]
    pub fn py2code(py_code: &str) -> (r: Result<Code, String>)
        ensures
            r matches Ok(c) ==> sorted_unique(c@.libraries),
            exists|d: Seq<nat>|
                drawn(d) && forall|x: Seq<nat>| #[trigger] program_spec(py_code@, d + x) == (code_view(r), x),
    {
        proof {
            lemma_no_draws();
        }
        let caps = captures_all(DEC_FUN, py_code);
        let ghost cs = regex_captures_all(DEC_FUN@, py_code@);
        let mut code = Self::create_code();
        proof {
            assert(code@.libraries =~= Seq::<Seq<char>>::empty());
            assert(code@.functions =~= Seq::<SpecFunction>::empty());
        }
        let read = code.read_functions(&caps);
        let ghost e = error_view(read);
        let ghost d = choose|d: Seq<nat>|
            drawn(d) && forall|x: Seq<nat>|
                #[trigger] functions_fold(Seq::empty(), Seq::empty(), d + x, cs, cs.len()) == (
                    e,
                    code@.libraries,
                    code@.functions,
                    x,
                );
        match read {
            Some(m) => {
                let r: Result<Code, String> = Err(m);
                proof {
                    assert forall|x: Seq<nat>| #[trigger] program_spec(py_code@, d + x) == (code_view(r), x) by {
                        assert(functions_fold(Seq::empty(), Seq::empty(), d + x, cs, cs.len()) == (
                            e,
                            code@.libraries,
                            code@.functions,
                            x,
                        ));
                    }
                }
                return r;
            },
            None => {},
        }
        let ghost empty_libs = Seq::<Seq<char>>::empty();
        let ghost empty_fs = Seq::<SpecFunction>::empty();
        let ghost libs1 = code@.libraries;
        let ghost fs1 = code@.functions;
        let main = code.get_main(py_code);
        let ghost om = function_view(main);
        let ghost libs2 = code@.libraries;
        let ghost d2 = choose|d2: Seq<nat>|
            drawn(d2) && forall|x: Seq<nat>| #[trigger] main_spec(libs1, fs1, d2 + x, py_code@) == (om, libs2, x);
        proof {
            lemma_drawn_add(d, d2);
            assert forall|x: Seq<nat>|
                #[trigger] functions_fold(empty_libs, empty_fs, (d + d2) + x, cs, cs.len()) == (
                    None::<Seq<char>>,
                    libs1,
                    fs1,
                    d2 + x,
                ) by {
                lemma_draws_assoc(d, d2, x);
            }
        }
        let ghost dd = d + d2;
        match main {
            Err(m) => {
                let r: Result<Code, String> = Err(m);
                proof {
                    assert forall|x: Seq<nat>| #[trigger] program_spec(py_code@, dd + x) == (code_view(r), x) by {
                        assert(functions_fold(empty_libs, empty_fs, dd + x, cs, cs.len()) == (None::<Seq<char>>, libs1, fs1, d2 + x));
                        assert(main_spec(libs1, fs1, d2 + x, py_code@) == (om, libs2, x));
                    }
                }
                return r;
            },
            Ok(function) => {
                proof {
                    assert(functions_view(code.functions@.push(function)) =~= functions_view(code.functions@).push(function@));
                }
                code.functions.push(function);
            },
        }
        let ghost c = code@;
        proof {
            assert forall|x: Seq<nat>| #[trigger] program_spec(py_code@, dd + x) == (checked_code(c), x) by {
                assert(functions_fold(empty_libs, empty_fs, dd + x, cs, cs.len()) == (None::<Seq<char>>, libs1, fs1, d2 + x));
                assert(main_spec(libs1, fs1, d2 + x, py_code@) == (om, libs2, x));
            }
        }
        let r: Result<Code, String> = if !all_bodies_ok(&code) {
            Err(String::from_str("Instrucción no válida"))
        } else {
            match infer_params(&mut code) {
                Err(m) => Err(m),
                Ok(_) => {
                    let libraries = sort_unique(&code.libraries);
                    proof {
                        lemma_sorted_set(c.libraries, libraries_view(libraries@));
                    }
                    code.libraries = libraries;
                    Ok(code)
                },
            }
        };
        proof {
            assert(code_view(r) == checked_code(c));
        }
        r
    }

    /// Turns a Python program into C++. `compiles` tells whether Python
    /// itself accepts the program; one that it refuses is not read.
    pub fn transpile(py_code: &str, compiles: bool) -> (r: Result<String, String>)
        ensures
            !compiles ==> text_view(r) == Err::<Seq<char>, Seq<char>>("Error de sintaxis"@),
            compiles ==> exists|d: Seq<nat>|
                drawn(d) && forall|x: Seq<nat>|
                    #[trigger] program_spec(filtered(py_code@), d + x).1 == x && cpp_of(
                        program_spec(filtered(py_code@), d + x).0,
                    ) == text_view(r),
    {
        if !compiles {
            return Err(String::from_str("Error de sintaxis"));
        }
        let text = Self::filter(py_code);
        let read = Self::py2code(text.as_str());
        let ghost o = code_view(read);
        let ghost d = choose|d: Seq<nat>|
            drawn(d) && forall|x: Seq<nat>| #[trigger] program_spec(text@, d + x) == (o, x);
        let r = match read {
            Err(e) => Err(e),
            Ok(code) => {
                if code_ok(&code) {
                    Ok(code.code2cpp())
                } else {
                    Err(String::from_str("Demasiados ciclos anidados"))
                }
            },
        };
        proof {
            assert forall|x: Seq<nat>|
                #[trigger] program_spec(filtered(py_code@), d + x).1 == x && cpp_of(
                    program_spec(filtered(py_code@), d + x).0,
                ) == text_view(r) by {
                assert(program_spec(text@, d + x) == (o, x));
            }
        }
        r
    }

    /// The lines of an indented block, one level less indented.
    pub fn shift_code_left(body: &str) -> (r: String)
        ensures
            r@ == shift_left(body@),
    {
        let caps = captures_all(SHIFT_LEFT, body);
        let ghost cs = regex_captures_all(SHIFT_LEFT@, body@);
        let mut result = String::new();
        proof {
            reveal_strlit("");
        }
        let mut k: usize = 0;
        while k < caps.len()
            invariant
                caps.deep_view() == cs,
                k <= caps@.len(),
                result@ == shifted(cs, k as nat),
            decreases caps@.len() - k,
        {
            let content = group(&caps[k], 1);
            result.append(content.as_str());
            result.append("\n");
            k = k + 1;
        }
        result
    }

    /// Removes the comments, and puts onto one line each parameter list and
    /// each list literal that spans several lines.
    pub fn filter(py_code: &str) -> (r: String)
        ensures
            r@ == filtered(py_code@),
    {
        let code = replace_all(COMMENTS, py_code, "");
        proof {
            reveal_strlit("");
            assert(""@ =~= Seq::<char>::empty());
        }
        let code = join_lines(PARAMS_MULTILINE, code);
        join_lines(ARRAY_MULTILINE, code)
    }

    fn fun2cpp(function: &Function) -> (r: String)
        requires
            instructions_wf(function@.body),
            1 + loop_depth(function@.body) <= u32::MAX,
        ensures
            r@ == fun_cpp(function@),
    {
        let ghost ps = params_view(function.params@);
        let type_ = function.type_.type2cpp();
        let mut header = type_;
        header.append(" ");
        header.append(function.name.as_str());
        header.append("(");
        let ghost start = header@;
        let mut there_are_generics = false;
        let mut index: usize = 0;
        proof {
            reveal_strlit("");
        }
        while index < function.params.len()
            invariant
                ps == params_view(function.params@),
                index <= ps.len(),
                header@ == start + params_cpp(ps, index as nat),
                there_are_generics == exists|k: int| 0 <= k < index && (#[trigger] ps[k]).type_ == Type::Generic,
            decreases ps.len() - index,
        {
            if index > 0 {
                header.append(", ");
            }
            let param = &function.params[index];
            if param.type_.same(&Type::Generic) {
                there_are_generics = true;
            }
            let t = param.type_.type2cpp();
            header.append(t.as_str());
            header.append(" ");
            header.append(param.name.as_str());
            proof {
                assert(ps[index as int] == param@);
            }
            index = index + 1;
        }
        let mut result = if there_are_generics {
            let mut t = String::from_str("template <typename T>\n\n");
            t.append(header.as_str());
            t
        } else {
            header
        };
        let body = Instruction::insts2cpp(&function.body, 1);
        result.append(") {\n");
        result.append(body.as_str());
        result.append("}\n");
        result
    }

    fn code2cpp(self) -> (r: String)
        requires
            code_wf(self@),
        ensures
            r@ == code_cpp(self@),
    {
        let ghost libs = libraries_view(self.libraries@);
        let ghost fs = functions_view(self.functions@);
        let mut result = String::new();
        proof {
            reveal_strlit("");
        }
        let mut k: usize = 0;
        while k < self.libraries.len()
            invariant
                libs == libraries_view(self.libraries@),
                k <= libs.len(),
                result@ == includes_cpp(libs, k as nat),
            decreases libs.len() - k,
        {
            result.append("#include <");
            result.append(self.libraries[k].name.as_str());
            result.append(">\n");
            k = k + 1;
        }
        result.append("\n");
        if self.libraries.len() > 0 {
            result.append("using namespace std;\n\n");
        }
        let ghost head = result@;
        let mut k: usize = 0;
        while k < self.functions.len()
            invariant
                fs == functions_view(self.functions@),
                code_wf(self@),
                k <= fs.len(),
                result@ == head + functions_cpp(fs, k as nat),
            decreases fs.len() - k,
        {
            proof {
                assert(fs[k as int] == self.functions@[k as int]@);
                assert(instructions_wf(fs[k as int].body));
            }
            let text = Self::fun2cpp(&self.functions[k]);
            result.append(text.as_str());
            result.append("\n");
            k = k + 1;
        }
        proof {
            reveal_strlit("\n");
        }
        pop_char(&mut result);
        result
    }
}

proof fn lemma_functions_fold_stays(
    libs: Seq<Seq<char>>,
    fs: Seq<SpecFunction>,
    ds: Seq<nat>,
    caps: Seq<Seq<Option<Seq<char>>>>,
    n: nat,
    m: nat,
)
    requires
        n <= m <= caps.len(),
        functions_fold(libs, fs, ds, caps, n).0 is Some,
    ensures
        functions_fold(libs, fs, ds, caps, m) == functions_fold(libs, fs, ds, caps, n),
    decreases m - n,
{
    if m > n {
        lemma_functions_fold_stays(libs, fs, ds, caps, n, (m - 1) as nat);
    }
}

/// Whether every body of the program has the shape that the generator reads.
fn all_bodies_ok(code: &Code) -> (r: bool)
    ensures
        r == bodies_wf(code@.functions),
{
    let ghost fs = code@.functions;
    let mut k: usize = 0;
    while k < code.functions.len()
        invariant
            fs == code@.functions,
            k <= fs.len(),
            forall|j: int| 0 <= j < k ==> instructions_wf(#[trigger] fs[j].body),
        decreases fs.len() - k,
    {
        proof {
            assert(fs[k as int] == code.functions@[k as int]@);
        }
        if !body_ok(&code.functions[k].body) {
            proof {
                assert(!instructions_wf(fs[k as int].body));
            }
            return false;
        }
        k = k + 1;
    }
    true
}

/// Whether the program can be written out: every body of the right shape
/// and no loop nested too deep.
fn code_ok(code: &Code) -> (r: bool)
    ensures
        r == code_wf(code@),
{
    let ghost fs = code@.functions;
    let mut k: usize = 0;
    while k < code.functions.len()
        invariant
            fs == code@.functions,
            k <= fs.len(),
            forall|j: int|
                0 <= j < k ==> instructions_wf(#[trigger] fs[j].body) && 1 + loop_depth(fs[j].body) <= u32::MAX,
        decreases fs.len() - k,
    {
        proof {
            assert(fs[k as int] == code.functions@[k as int]@);
        }
        if !body_ok(&code.functions[k].body) || !depth_within(&code.functions[k].body, u32::MAX - 1) {
            proof {
                assert(!(instructions_wf(fs[k as int].body) && 1 + loop_depth(fs[k as int].body) <= u32::MAX));
            }
            return false;
        }
        k = k + 1;
    }
    true
}

/// Joins onto one line the texts matched by `pattern`, one at a time.
fn join_lines(pattern: &str, code: String) -> (r: String)
    ensures
        r@ == joined(pattern@, code@),
    decreases code@.len(),
{
    match captures(pattern, code.as_str()) {
        None => code,
        Some(cap) => {
            let m = group(&cap, 0);
            if m.unicode_len() == 0 {
                return code;
            }
            proof {
                reveal_strlit("\n");
                reveal_strlit("");
            }
            let one_line = replace_text(m.as_str(), "\n", "");
            let next = replace_text(code.as_str(), m.as_str(), one_line.as_str());
            proof {
                assert(""@ =~= Seq::<char>::empty());
                assert(m@ == group_of(cap.deep_view(), 0));
                assert(cap.deep_view() == regex_captures(pattern@, code@)->0);
                assert(next@ == replaced(code@, m@, replaced(m@, "\n"@, Seq::empty())));
            }
            if next.unicode_len() < code.unicode_len() {
                join_lines(pattern, next)
            } else {
                code
            }
        },
    }
}

} // verus!
