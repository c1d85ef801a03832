use py2cpp::py2cpp::context::Context;
use py2cpp::py2cpp::infer::{get_return_type, get_var_type, infer_params, param_types};
use py2cpp::py2cpp::library::sort_unique;
use py2cpp::py2cpp::types::{Argument, Code, Function, Instruction, Library, Operator, Param, Type, Value};

fn library(name: &str) -> Library {
    Library { name: name.to_string() }
}

fn names(libraries: &Vec<Library>) -> Vec<String> {
    libraries.iter().map(|l| l.name.clone()).collect()
}

#[test]
fn type_spellings() {
    assert_eq!(Type::Int.type2cpp(), "int");
    assert_eq!(Type::String.type2cpp(), "string");
    assert_eq!(Type::Void.type2cpp(), "void");
    assert_eq!(Type::Generic.type2cpp(), "T");
    assert_eq!(Type::Undefined.type2cpp(), "undefined");
    assert_eq!(Type::Vector(Box::new(Type::Vector(Box::new(Type::String)))).type2cpp(), "vector<vector<string>>");
}

#[test]
fn operators_round_trip() {
    for symbol in ["+", "-", "*", "/"] {
        assert_eq!(Operator::opr2cpp(&Operator::str2opr(symbol)), symbol);
    }
    for op in [Operator::Plus, Operator::Minus, Operator::Multiply, Operator::Divide] {
        let back = Operator::str2opr(&Operator::opr2cpp(&op));
        assert_eq!(format!("{:?}", back), format!("{:?}", op));
    }
}

#[test]
fn unknown_operator() {
    assert!(matches!(Operator::str2opr("%"), Operator::Unknown));
    assert_eq!(Operator::opr2cpp(&Operator::Unknown), "");
}

#[test]
fn libraries_in_order_given() {
    assert_eq!(names(&Library::get_libraries(&["string", "iostream"])), vec!["string", "iostream"]);
}

#[test]
fn libraries_sorted_once() {
    let libs = vec![library("vector"), library("iostream"), library("string"), library("iostream")];
    assert_eq!(names(&sort_unique(&libs)), vec!["iostream", "string", "vector"]);
}

#[test]
fn sorted_libraries_do_not_depend_on_order() {
    let a = vec![library("string"), library("vector"), library("iostream")];
    let b = vec![library("iostream"), library("iostream"), library("vector"), library("string")];
    assert_eq!(names(&sort_unique(&a)), names(&sort_unique(&b)));
    assert_eq!(names(&sort_unique(&sort_unique(&a))), names(&sort_unique(&a)));
}

#[test]
fn context_reads_back_what_was_inserted() {
    let mut ctx = Context::new();
    assert_eq!(ctx.get_type("x").unwrap_err(), "La variable o función \"x\" no encontrada");
    ctx.insert("x".to_string(), vec![Param { type_: Type::Int, name: "x".to_string() }]);
    ctx.insert("y".to_string(), vec![Param { type_: Type::String, name: "y".to_string() }]);
    assert!(matches!(ctx.get_type("x"), Ok(Type::Int)));
    ctx.insert(
        "x".to_string(),
        vec![
            Param { type_: Type::Int, name: "x".to_string() },
            Param { type_: Type::String, name: "x7".to_string() },
        ],
    );
    assert!(matches!(ctx.get_type("x"), Ok(Type::String)));
    assert!(matches!(ctx.get_type("y"), Ok(Type::String)));
    assert_eq!(ctx.get("x").unwrap()[1].name, "x7");
}

fn function(type_: Type, name: &str, params: Vec<Param>, body: Vec<Instruction>) -> Function {
    Function { type_, name: name.to_string(), params, body }
}

#[test]
fn function_names_give_return_types() {
    let mut code = Code {
        libraries: vec![],
        functions: vec![
            function(Type::Int, "f", vec![], vec![]),
            function(Type::String, "g", vec![], vec![]),
        ],
    };
    let mut ctx = Context::get_fun_types(&mut code);
    assert!(matches!(ctx.get_type("f"), Ok(Type::Int)));
    assert!(matches!(ctx.get_type("g"), Ok(Type::String)));
    assert!(ctx.get_type("h").is_err());
}

#[test]
fn return_type_is_first_return() {
    let mut body = vec![
        Instruction::CreateVar { type_: Type::Int, name: "a".to_string(), value: Value::ConstValue("1".to_string()) },
        Instruction::Return { type_: Type::String, value: "s".to_string() },
        Instruction::Return { type_: Type::Int, value: "a".to_string() },
    ];
    assert!(matches!(get_return_type(&mut body), Type::String));
    let mut empty: Vec<Instruction> = vec![];
    assert!(matches!(get_return_type(&mut empty), Type::Void));
}

#[test]
fn variable_type_is_last_declaration() {
    let body = vec![
        Instruction::CreateVar { type_: Type::Int, name: "a".to_string(), value: Value::Empty },
        Instruction::CreateVar { type_: Type::String, name: "a".to_string(), value: Value::Empty },
    ];
    assert!(matches!(get_var_type("a", &body), Type::String));
    assert!(matches!(get_var_type("b", &body), Type::Undefined));
}

fn call(name: &str, types: Vec<Type>) -> Instruction {
    Instruction::CallFun {
        name: name.to_string(),
        arguments: types.into_iter().map(|t| Argument { type_: t, value: Value::ConstValue("1".to_string()) }).collect(),
    }
}

#[test]
fn parameter_types_follow_calls() {
    let mut code = Code {
        libraries: vec![library("iostream")],
        functions: vec![
            function(Type::Void, "f", vec![Param { type_: Type::Undefined, name: "a".to_string() }], vec![]),
            function(Type::Void, "g", vec![Param { type_: Type::Undefined, name: "b".to_string() }], vec![]),
            function(Type::Void, "h", vec![Param { type_: Type::Undefined, name: "c".to_string() }], vec![]),
            function(
                Type::Int,
                "main",
                vec![],
                vec![call("f", vec![Type::Int]), call("g", vec![Type::Int]), call("g", vec![Type::String])],
            ),
        ],
    };
    assert!(param_types(&mut code).is_ok());
    assert!(matches!(code.functions[0].params[0].type_, Type::Int));
    assert!(matches!(code.functions[1].params[0].type_, Type::Generic));
    assert!(matches!(code.functions[2].params[0].type_, Type::Undefined));
    assert_eq!(names(&code.libraries), vec!["iostream"]);
}

#[test]
fn too_few_arguments_refused() {
    let mut code = Code {
        libraries: vec![],
        functions: vec![
            function(
                Type::Void,
                "f",
                vec![
                    Param { type_: Type::Undefined, name: "a".to_string() },
                    Param { type_: Type::Undefined, name: "b".to_string() },
                ],
                vec![],
            ),
            function(Type::Int, "main", vec![], vec![call("f", vec![Type::Int])]),
        ],
    };
    assert_eq!(infer_params(&mut code), Err("Faltan argumentos en la llamada a una función".to_string()));
}

#[test]
fn instruction_value_of_call() {
    let i = call("f", vec![Type::Int]);
    assert!(matches!(Instruction::instruc2value(&i), Value::CallFun { name, .. } if name == "f"));
    let r = Instruction::Return { type_: Type::Int, value: "0".to_string() };
    assert!(matches!(Instruction::instruc2value(&r), Value::Empty));
}

#[test]
fn instructions_indented() {
    let body = vec![
        Instruction::CreateVar { type_: Type::Int, name: "x".to_string(), value: Value::ConstValue("3".to_string()) },
        Instruction::Return { type_: Type::Int, value: "x".to_string() },
    ];
    assert_eq!(Instruction::insts2cpp(&body, 2), "        int x = 3;\n        return x;\n");
}

#[test]
fn loop_written_with_bounds() {
    let body = vec![Instruction::Loop {
        counter: "i".to_string(),
        start: Value::ConstValue("0".to_string()),
        end: Value::UseVar("n".to_string()),
        content: vec![Instruction::Return { type_: Type::Int, value: "i".to_string() }],
    }];
    assert_eq!(Instruction::insts2cpp(&body, 1), "    for (int i = 0; i < n; i++) {\n        return i;\n    }\n");
}
