use vstd::prelude::*;

verus! {

/// The types that the transpiler knows of a variable, a parameter or a function.
#[derive(Debug)]
pub enum Type {
    Int,
    String,
    Void,
    Vector(Box<Type>),
    Generic,
    Undefined,
}

/// A named, typed slot: a parameter, a variable, or a function with its return type.
#[derive(Debug)]
pub struct Param {
    pub type_: Type,
    pub name: String,
}

/// An argument handed to a function, with the type the transpiler gives it.
#[derive(Debug)]
pub struct Argument {
    pub type_: Type,
    pub value: Value,
}

/// The arithmetic operators of an expression; `Unknown` stands for any other text.
#[derive(Clone, Copy, Debug)]
pub enum Operator {
    Plus,
    Minus,
    Multiply,
    Divide,
    Unknown,
}

/// A value as it stands on the right of an assignment or as an argument.
/// `Empty` is a value that the transpiler could not read, or none at all.
#[derive(Debug)]
pub enum Value {
    ConstValue(String),
    UseVar(String),
    CallFun { name: String, arguments: Vec<Argument> },
    Expression { operators: Vec<Operator>, values: Vec<Value> },
    Empty,
}

/// One instruction of a function body.
#[derive(Debug)]
pub enum Instruction {
    CreateVar { type_: Type, name: String, value: Value },
    ReassignVar { type_: Type, name: String, value: Value },
    CallFun { name: String, arguments: Vec<Argument> },
    Loop { counter: String, start: Value, end: Value, content: Vec<Instruction> },
    Return { type_: Type, value: String },
}

#[derive(Debug)]
pub struct Function {
    pub type_: Type,
    pub name: String,
    pub params: Vec<Param>,
    pub body: Vec<Instruction>,
}

/// A C++ header that the generated program includes.
#[derive(Debug)]
pub struct Library {
    pub name: String,
}

/// A whole program: the headers it needs and its functions, `main` last.
#[derive(Debug)]
pub struct Code {
    pub libraries: Vec<Library>,
    pub functions: Vec<Function>,
}

// ---------------------------------------------------------------------------
// Models: the same data with strings as character sequences and vectors as
// sequences, so that contracts can compare values by content.
// ---------------------------------------------------------------------------

pub ghost struct SpecParam {
    pub type_: Type,
    pub name: Seq<char>,
}

pub ghost struct SpecArgument {
    pub type_: Type,
    pub value: SpecValue,
}

pub ghost enum SpecValue {
    ConstValue(Seq<char>),
    UseVar(Seq<char>),
    CallFun { name: Seq<char>, arguments: Seq<SpecArgument> },
    Expression { operators: Seq<Operator>, values: Seq<SpecValue> },
    Empty,
}

pub ghost enum SpecInstruction {
    CreateVar { type_: Type, name: Seq<char>, value: SpecValue },
    ReassignVar { type_: Type, name: Seq<char>, value: SpecValue },
    CallFun { name: Seq<char>, arguments: Seq<SpecArgument> },
    Loop { counter: Seq<char>, start: SpecValue, end: SpecValue, content: Seq<SpecInstruction> },
    Return { type_: Type, value: Seq<char> },
}

pub ghost struct SpecFunction {
    pub type_: Type,
    pub name: Seq<char>,
    pub params: Seq<SpecParam>,
    pub body: Seq<SpecInstruction>,
}

pub ghost struct SpecCode {
    pub libraries: Seq<Seq<char>>,
    pub functions: Seq<SpecFunction>,
}

impl View for Param {
    type V = SpecParam;

    open spec fn view(&self) -> SpecParam {
        SpecParam { type_: self.type_, name: self.name@ }
    }
}

pub open spec fn params_view(ps: Seq<Param>) -> Seq<SpecParam> {
    ps.map_values(|p: Param| p@)
}

pub open spec fn arguments_view(args: Seq<Argument>) -> Seq<SpecArgument>
    decreases args,
{
    if args.len() == 0 {
        Seq::empty()
    } else {
        arguments_view(args.drop_last()).push(argument_view(args.last()))
    }
}

pub open spec fn argument_view(a: Argument) -> SpecArgument
    decreases a,
{
    SpecArgument { type_: a.type_, value: value_view(a.value) }
}

pub open spec fn value_view(v: Value) -> SpecValue
    decreases v,
{
    match v {
        Value::ConstValue(s) => SpecValue::ConstValue(s@),
        Value::UseVar(s) => SpecValue::UseVar(s@),
        Value::CallFun { name, arguments } => SpecValue::CallFun {
            name: name@,
            arguments: arguments_view(arguments@),
        },
        Value::Expression { operators, values } => SpecValue::Expression {
            operators: operators@,
            values: values_view(values@),
        },
        Value::Empty => SpecValue::Empty,
    }
}

pub open spec fn values_view(vs: Seq<Value>) -> Seq<SpecValue>
    decreases vs,
{
    if vs.len() == 0 {
        Seq::empty()
    } else {
        values_view(vs.drop_last()).push(value_view(vs.last()))
    }
}

pub open spec fn instruction_view(i: Instruction) -> SpecInstruction
    decreases i,
{
    match i {
        Instruction::CreateVar { type_, name, value } => SpecInstruction::CreateVar {
            type_,
            name: name@,
            value: value_view(value),
        },
        Instruction::ReassignVar { type_, name, value } => SpecInstruction::ReassignVar {
            type_,
            name: name@,
            value: value_view(value),
        },
        Instruction::CallFun { name, arguments } => SpecInstruction::CallFun {
            name: name@,
            arguments: arguments_view(arguments@),
        },
        Instruction::Loop { counter, start, end, content } => SpecInstruction::Loop {
            counter: counter@,
            start: value_view(start),
            end: value_view(end),
            content: instructions_view(content@),
        },
        Instruction::Return { type_, value } => SpecInstruction::Return { type_, value: value@ },
    }
}

pub open spec fn instructions_view(is: Seq<Instruction>) -> Seq<SpecInstruction>
    decreases is,
{
    if is.len() == 0 {
        Seq::empty()
    } else {
        instructions_view(is.drop_last()).push(instruction_view(is.last()))
    }
}

impl View for Argument {
    type V = SpecArgument;

    open spec fn view(&self) -> SpecArgument {
        argument_view(*self)
    }
}

impl View for Value {
    type V = SpecValue;

    open spec fn view(&self) -> SpecValue {
        value_view(*self)
    }
}

impl View for Instruction {
    type V = SpecInstruction;

    open spec fn view(&self) -> SpecInstruction {
        instruction_view(*self)
    }
}

impl View for Function {
    type V = SpecFunction;

    open spec fn view(&self) -> SpecFunction {
        SpecFunction {
            type_: self.type_,
            name: self.name@,
            params: params_view(self.params@),
            body: instructions_view(self.body@),
        }
    }
}

impl View for Library {
    type V = Seq<char>;

    open spec fn view(&self) -> Seq<char> {
        self.name@
    }
}

pub open spec fn libraries_view(ls: Seq<Library>) -> Seq<Seq<char>> {
    ls.map_values(|l: Library| l@)
}

pub open spec fn functions_view(fs: Seq<Function>) -> Seq<SpecFunction> {
    fs.map_values(|f: Function| f@)
}

impl View for Code {
    type V = SpecCode;

    open spec fn view(&self) -> SpecCode {
        SpecCode {
            libraries: libraries_view(self.libraries@),
            functions: functions_view(self.functions@),
        }
    }
}

/// What a parser of one construct gives: nothing where the line is not that
/// construct, otherwise the instructions and the libraries that it needs.
pub type Parsed = Option<(Seq<SpecInstruction>, Seq<Seq<char>>)>;

pub open spec fn parsed_view(o: Option<(Vec<Instruction>, Vec<Library>)>) -> Parsed {
    match o {
        Some((is, ls)) => Some((instructions_view(is@), libraries_view(ls@))),
        None => None,
    }
}

/// A parser's result, with its message where it refuses the line.
pub open spec fn outcome_view(r: Result<Option<(Vec<Instruction>, Vec<Library>)>, String>) -> Result<
    Parsed,
    Seq<char>,
> {
    match r {
        Ok(o) => Ok(parsed_view(o)),
        Err(e) => Err(e@),
    }
}

// ---------------------------------------------------------------------------
// Facts about the recursive views.
// ---------------------------------------------------------------------------

pub proof fn lemma_arguments_view(args: Seq<Argument>)
    ensures
        arguments_view(args).len() == args.len(),
        forall|i: int| 0 <= i < args.len() ==> #[trigger] arguments_view(args)[i] == argument_view(args[i]),
    decreases args.len(),
{
    if args.len() > 0 {
        lemma_arguments_view(args.drop_last());
    }
}

pub proof fn lemma_values_view(vs: Seq<Value>)
    ensures
        values_view(vs).len() == vs.len(),
        forall|i: int| 0 <= i < vs.len() ==> #[trigger] values_view(vs)[i] == value_view(vs[i]),
    decreases vs.len(),
{
    if vs.len() > 0 {
        lemma_values_view(vs.drop_last());
    }
}

pub proof fn lemma_instructions_view(is: Seq<Instruction>)
    ensures
        instructions_view(is).len() == is.len(),
        forall|i: int| 0 <= i < is.len() ==> #[trigger] instructions_view(is)[i] == instruction_view(is[i]),
    decreases is.len(),
{
    if is.len() > 0 {
        lemma_instructions_view(is.drop_last());
    }
}

pub proof fn lemma_arguments_view_push(args: Seq<Argument>, a: Argument)
    ensures
        arguments_view(args.push(a)) == arguments_view(args).push(argument_view(a)),
{
    assert(args.push(a).drop_last() =~= args);
}

pub proof fn lemma_values_view_push(vs: Seq<Value>, v: Value)
    ensures
        values_view(vs.push(v)) == values_view(vs).push(value_view(v)),
{
    assert(vs.push(v).drop_last() =~= vs);
}

pub proof fn lemma_instructions_view_push(is: Seq<Instruction>, i: Instruction)
    ensures
        instructions_view(is.push(i)) == instructions_view(is).push(instruction_view(i)),
{
    assert(is.push(i).drop_last() =~= is);
}

/// No instructions.
pub fn no_instructions() -> (r: Vec<Instruction>)
    ensures
        r@.len() == 0,
        instructions_view(r@) == Seq::<SpecInstruction>::empty(),
{
    let r: Vec<Instruction> = Vec::new();
    proof {
        assert(instructions_view(r@) =~= Seq::<SpecInstruction>::empty());
    }
    r
}

/// No libraries.
pub fn no_libraries() -> (r: Vec<Library>)
    ensures
        libraries_view(r@) == Seq::<Seq<char>>::empty(),
{
    let r: Vec<Library> = Vec::new();
    proof {
        assert(libraries_view(r@) =~= Seq::<Seq<char>>::empty());
    }
    r
}

pub proof fn lemma_libraries_view_add(a: Seq<Library>, b: Seq<Library>)
    ensures
        libraries_view(a + b) == libraries_view(a) + libraries_view(b),
{
    assert(libraries_view(a + b) =~= libraries_view(a) + libraries_view(b));
}

pub proof fn lemma_params_view_add(a: Seq<Param>, b: Seq<Param>)
    ensures
        params_view(a + b) == params_view(a) + params_view(b),
{
    assert(params_view(a + b) =~= params_view(a) + params_view(b));
}

/// A body of one instruction.
pub fn single_instruction(i: Instruction) -> (r: Vec<Instruction>)
    ensures
        r@.len() == 1,
        instructions_view(r@) == seq![i@],
{
    let mut r: Vec<Instruction> = Vec::new();
    proof {
        lemma_instructions_view_single(i);
        assert(r@.push(i) =~= seq![i]);
    }
    r.push(i);
    r
}

pub proof fn lemma_instructions_view_single(i: Instruction)
    ensures
        instructions_view(seq![i]) == seq![instruction_view(i)],
{
    assert(seq![i].drop_last() =~= Seq::<Instruction>::empty());
    assert(instructions_view(Seq::<Instruction>::empty()) == Seq::<SpecInstruction>::empty());
    assert(seq![i].last() == i);
    assert(instructions_view(seq![i]) =~= seq![instruction_view(i)]);
}

pub proof fn lemma_arguments_view_single(a: Argument)
    ensures
        arguments_view(seq![a]) == seq![argument_view(a)],
{
    assert(seq![a].drop_last() =~= Seq::<Argument>::empty());
    assert(arguments_view(Seq::<Argument>::empty()) == Seq::<SpecArgument>::empty());
    assert(seq![a].last() == a);
    assert(arguments_view(seq![a]) =~= seq![argument_view(a)]);
}

pub proof fn lemma_instructions_view_add(a: Seq<Instruction>, b: Seq<Instruction>)
    ensures
        instructions_view(a + b) == instructions_view(a) + instructions_view(b),
    decreases b.len(),
{
    if b.len() == 0 {
        assert(a + b =~= a);
        assert(instructions_view(b) =~= Seq::<SpecInstruction>::empty());
        assert(instructions_view(a) + instructions_view(b) =~= instructions_view(a));
    } else {
        lemma_instructions_view_add(a, b.drop_last());
        assert((a + b).drop_last() =~= a + b.drop_last());
        assert((a + b).last() == b.last());
        assert(instructions_view(a) + instructions_view(b) =~= (instructions_view(a)
            + instructions_view(b.drop_last())).push(instruction_view(b.last())));
    }
}

} // verus!
