use py2cpp::py2cpp::context::Context;
use py2cpp::py2cpp::instructions::{append, at, custom_fun, declare, input, int_fun, len, print, return_stmt};
use py2cpp::py2cpp::types::{Argument, Instruction, Operator, Param, Type, Value};

fn param(type_: Type, name: &str) -> Param {
    Param { type_, name: name.to_string() }
}

fn context_with(vars: &[(&str, Type)]) -> Context {
    let mut ctx = Context::new();
    for (name, type_) in vars {
        let t = match type_ {
            Type::Int => Type::Int,
            Type::String => Type::String,
            Type::Void => Type::Void,
            Type::Generic => Type::Generic,
            Type::Undefined => Type::Undefined,
            Type::Vector(inner) => Type::Vector(Box::new(match **inner {
                Type::Int => Type::Int,
                Type::String => Type::String,
                _ => Type::Undefined,
            })),
        };
        ctx.insert(name.to_string(), vec![param(t, name)]);
    }
    ctx
}

fn cpp_lines(instructions: &Vec<Instruction>) -> String {
    Instruction::insts2cpp(instructions, 0)
}

#[test]
fn print_reads_words_and_line_break() {
    let mut ctx = context_with(&[("x", Type::Int)]);
    let (instructions, libraries) = print::py2code(&mut ctx, "print(\"Hola\", x)", true).unwrap().unwrap();
    assert_eq!(libraries.len(), 1);
    assert_eq!(libraries[0].name, "iostream");
    assert_eq!(cpp_lines(&instructions), "cout << \"Hola\" << \" \" << x << endl;\n");
    match &instructions[0] {
        Instruction::CallFun { name, arguments } => {
            assert_eq!(name, "print");
            assert_eq!(arguments.len(), 3);
            assert!(matches!(arguments[0].type_, Type::String));
            assert!(matches!(arguments[1].type_, Type::Int));
            assert!(matches!(&arguments[2].value, Value::ConstValue(v) if v == "true"));
        },
        other => panic!("unexpected {:?}", other),
    }
}

#[test]
fn print_without_line_break() {
    let mut ctx = context_with(&[("x", Type::Int)]);
    let (instructions, _) = print::py2code(&mut ctx, "print(x)", false).unwrap().unwrap();
    assert_eq!(cpp_lines(&instructions), "cout << x;\n");
}

#[test]
fn print_skips_bare_numbers() {
    let mut ctx = Context::new();
    let (instructions, _) = print::py2code(&mut ctx, "print(5)", true).unwrap().unwrap();
    assert_eq!(cpp_lines(&instructions), "cout << endl;\n");
}

#[test]
fn print_refuses_unknown_variable() {
    let mut ctx = Context::new();
    assert_eq!(
        print::py2code(&mut ctx, "print(y)", true).unwrap_err(),
        "La variable o función \"y\" no encontrada"
    );
}

#[test]
fn print_ignores_other_lines() {
    let mut ctx = Context::new();
    assert!(print::py2code(&mut ctx, "x = 1", true).unwrap().is_none());
}

#[test]
fn input_prompts_then_reads_into_variable() {
    let mut ctx = Context::new();
    let (instructions, libraries) = input::py2code(&mut ctx, "nombre", "input(\"Nombre: \")", false).unwrap().unwrap();
    assert_eq!(cpp_lines(&instructions), "cout << \"Nombre: \";\ncin >> nombre;\n");
    let names: Vec<String> = libraries.iter().map(|l| l.name.clone()).collect();
    assert_eq!(names, vec!["iostream".to_string(), "string".to_string()]);
}

#[test]
fn declare_input_comes_first() {
    let mut ctx = Context::new();
    let (instructions, _) = declare::py2code(&mut ctx, "nombre = input(\"Nombre: \")").unwrap().unwrap();
    assert_eq!(cpp_lines(&instructions), "string nombre;\ncout << \"Nombre: \";\ncin >> nombre;\n");
    assert!(matches!(ctx.get_type("nombre"), Ok(Type::String)));
}

#[test]
fn declare_int_of_input_uses_aux() {
    let mut ctx = Context::new();
    let (instructions, libraries) = declare::py2code(&mut ctx, "edad = int(input(\"Edad: \"))").unwrap().unwrap();
    assert_eq!(
        cpp_lines(&instructions),
        "string aux;\ncout << \"Edad: \";\ncin >> aux;\nint edad = stoi(aux);\n"
    );
    let names: Vec<String> = libraries.iter().map(|l| l.name.clone()).collect();
    assert_eq!(names, vec!["string".to_string(), "iostream".to_string(), "string".to_string()]);
    assert!(matches!(ctx.get_type("aux"), Ok(Type::String)));
    assert!(matches!(ctx.get_type("edad"), Ok(Type::Int)));
}

#[test]
fn declare_then_reassign_same_type() {
    let mut ctx = Context::new();
    let (first, _) = declare::py2code(&mut ctx, "x = 5").unwrap().unwrap();
    assert_eq!(cpp_lines(&first), "int x = 5;\n");
    let (second, _) = declare::py2code(&mut ctx, "x = 7").unwrap().unwrap();
    assert!(matches!(&second[0], Instruction::ReassignVar { name, .. } if name == "x"));
    assert_eq!(cpp_lines(&second), "x = 7;\n");
}

#[test]
fn declare_other_type_renames_with_number_below_100() {
    let mut ctx = Context::new();
    declare::py2code(&mut ctx, "x = 5").unwrap();
    let (instructions, _) = declare::py2code(&mut ctx, "x = \"hola\"").unwrap().unwrap();
    match &instructions[0] {
        Instruction::CreateVar { type_, name, .. } => {
            assert!(matches!(type_, Type::String));
            assert!(name.starts_with('x'));
            let suffix: u32 = name[1..].parse().unwrap();
            assert!(suffix < 100);
            assert_eq!(&name[1..], suffix.to_string().as_str());
        },
        other => panic!("unexpected {:?}", other),
    }
    assert!(matches!(ctx.get_type("x"), Ok(Type::String)));
}

#[test]
fn declare_refuses_empty_value() {
    let mut ctx = Context::new();
    assert_eq!(declare::py2code(&mut ctx, "x = ").unwrap_err(), "Falta asignar el valor");
}

#[test]
fn declare_keeps_unknown_text() {
    let mut ctx = Context::new();
    let (instructions, _) = declare::py2code(&mut ctx, "x = 1.5").unwrap().unwrap();
    assert!(matches!(&instructions[0], Instruction::CreateVar { type_: Type::Undefined, value: Value::ConstValue(v), .. } if v == "1.5"));
}

#[test]
fn declare_empty_list_needs_vector() {
    let mut ctx = Context::new();
    let (instructions, libraries) = declare::py2code(&mut ctx, "v = []").unwrap().unwrap();
    assert_eq!(libraries[0].name, "vector");
    assert_eq!(cpp_lines(&instructions), "vector<undefined> v;\n");
}

#[test]
fn declare_expression() {
    let mut ctx = context_with(&[("a", Type::Int), ("b", Type::Int)]);
    let (instructions, _) = declare::py2code(&mut ctx, "c = a+2*b").unwrap().unwrap();
    assert_eq!(cpp_lines(&instructions), "int c = a + 2 * b;\n");
}

#[test]
fn int_of_variable() {
    let mut ctx = context_with(&[("t", Type::String)]);
    let (instructions, libraries) = int_fun::py2code(&mut ctx, "int(t)").unwrap().unwrap();
    assert_eq!(libraries[0].name, "string");
    match &instructions[0] {
        Instruction::CallFun { name, arguments } => {
            assert_eq!(name, "int");
            assert_eq!(int_fun::code2cpp(&arguments[0]), "stoi(t)");
        },
        other => panic!("unexpected {:?}", other),
    }
}

#[test]
fn custom_call_reads_arguments() {
    let mut ctx = context_with(&[("suma", Type::Int), ("a", Type::Int)]);
    let (instructions, libraries) = custom_fun::py2code(&mut ctx, "suma(a,2)").unwrap().unwrap();
    assert!(libraries.is_empty());
    assert_eq!(cpp_lines(&instructions), "suma(a, 2);\n");
}

#[test]
fn custom_call_leaves_native_functions() {
    let mut ctx = Context::new();
    assert!(custom_fun::py2code(&mut ctx, "print(1)").unwrap().is_none());
    assert!(custom_fun::py2code(&mut ctx, "len(v)").unwrap().is_none());
}

#[test]
fn custom_call_refuses_unknown_argument() {
    let mut ctx = context_with(&[("f", Type::Int)]);
    assert_eq!(
        custom_fun::py2code(&mut ctx, "f(z)").unwrap_err(),
        "La variable o función \"z\" no encontrada"
    );
}

#[test]
fn append_retypes_the_vector() {
    let mut ctx = Context::new();
    let mut body = vec![Instruction::CreateVar {
        type_: Type::Vector(Box::new(Type::Undefined)),
        name: "lista".to_string(),
        value: Value::Empty,
    }];
    let (instructions, libraries) = append::py2code(&mut ctx, &mut body, "lista.append(3)").unwrap();
    assert!(libraries.is_empty());
    assert_eq!(cpp_lines(&instructions), "lista.push_back(3);\n");
    assert!(matches!(&body[0], Instruction::CreateVar { type_: Type::Vector(inner), .. } if matches!(**inner, Type::Int)));
}

#[test]
fn at_reads_element() {
    let mut ctx = context_with(&[("v", Type::Vector(Box::new(Type::Int)))]);
    let (instructions, _) = at::py2code(&mut ctx, "v[1]").unwrap().unwrap();
    match &instructions[0] {
        Instruction::CallFun { name, arguments } => assert_eq!(at::code2cpp(name, arguments), "v.at(1)"),
        other => panic!("unexpected {:?}", other),
    }
    assert_eq!(at::py2code(&mut ctx, "w[1]").unwrap_err(), "La variable o función \"w\" no encontrada");
}

#[test]
fn len_reads_size() {
    let mut ctx = context_with(&[("v", Type::Vector(Box::new(Type::Int)))]);
    let (instructions, _) = len::py2code(&mut ctx, "len(v)").unwrap().unwrap();
    match &instructions[0] {
        Instruction::CallFun { name, arguments } => {
            assert_eq!(name, "len");
            assert_eq!(len::code2cpp(&arguments[0]), "v.size()");
        },
        other => panic!("unexpected {:?}", other),
    }
}

#[test]
fn return_takes_declared_type() {
    let mut ctx = context_with(&[("r", Type::Int)]);
    let body = vec![Instruction::CreateVar { type_: Type::Int, name: "r".to_string(), value: Value::ConstValue("1".to_string()) }];
    let (instructions, _) = return_stmt::py2code(&body, &mut ctx, "return r").unwrap().unwrap();
    assert!(matches!(&instructions[0], Instruction::Return { type_: Type::Int, value } if value == "r"));
    assert_eq!(return_stmt::code2cpp(&"r".to_string()), "return r;");
    let (literal, _) = return_stmt::py2code(&body, &mut ctx, "return 5").unwrap().unwrap();
    assert!(matches!(&literal[0], Instruction::Return { type_: Type::Undefined, .. }));
}

#[test]
fn expression_read_into_terms() {
    let mut ctx = context_with(&[("a", Type::Int), ("b", Type::Int), ("v", Type::Vector(Box::new(Type::Int)))]);
    match Value::exp2value(&mut ctx, "a + 2 * b") {
        Value::Expression { operators, values } => {
            assert!(matches!(operators[..], [Operator::Plus, Operator::Multiply]));
            assert_eq!(values.len(), 3);
            assert_eq!(Value::exp2cpp(&operators, &values), "a + 2 * b");
        },
        other => panic!("unexpected {:?}", other),
    }
    match Value::exp2value(&mut ctx, "v[0] + 1") {
        Value::Expression { operators, values } => {
            assert_eq!(Value::exp2cpp(&operators, &values), "v.at(0) + 1");
        },
        other => panic!("unexpected {:?}", other),
    }
}

#[test]
fn expression_leaves_out_unknown_vector() {
    let mut ctx = Context::new();
    match Value::exp2value(&mut ctx, "w[0] + 1") {
        Value::Expression { operators, values } => {
            assert_eq!(operators.len(), 1);
            assert_eq!(values.len(), 1);
            assert!(matches!(&values[0], Value::ConstValue(v) if v == "1"));
        },
        other => panic!("unexpected {:?}", other),
    }
}

#[test]
fn argument_types_carry_over() {
    let arg = Argument { type_: Type::Int, value: Value::UseVar("n".to_string()) };
    assert_eq!(int_fun::code2cpp(&arg), "stoi(n)");
}

#[test]
fn declare_spaced_expression_kept_as_text() {
    let mut ctx = context_with(&[("a", Type::Int), ("b", Type::Int)]);
    let (instructions, _) = declare::py2code(&mut ctx, "c = a + 2 * b").unwrap().unwrap();
    assert_eq!(cpp_lines(&instructions), "undefined c = a + 2 * b;\n");
}
