use py2cpp::py2cpp::types::Code;

#[test]
fn transpiles_function_and_main() {
    let py = "def doble(n):\n    r = n * 2\n    return r\n\nx=doble(4)\nprint(x)\n";
    let cpp = Code::transpile(py, true).unwrap();
    assert_eq!(
        cpp,
        "#include <iostream>\n\nusing namespace std;\n\nint doble(int n) {\n    int r = n * 2;\n    return r;\n}\n\nint main() {\n    int x = doble(4);\n    cout << x << endl;\n    return 0;\n}\n"
    );
}

#[test]
fn transpiles_loop_and_vector() {
    let py = "def unos(n):\n    v=[]\n    for i in range(0, n):\n        v.append(1)\n    return v\n\nlista=unos(3)\n";
    let cpp = Code::transpile(py, true).unwrap();
    assert_eq!(
        cpp,
        "#include <vector>\n\nusing namespace std;\n\nvector<int> unos(int n) {\n    vector<int> v;\n    for (int i = 0; i < n; i++) {\n        v.push_back(1);\n    }\n    return v;\n}\n\nint main() {\n    vector<int> lista = unos(3);\n    return 0;\n}\n"
    );
}

#[test]
fn transpiles_input_and_int() {
    let py = "edad=int(input(\"Edad: \"))\nprint(\"Tienes\", edad)\n";
    let cpp = Code::transpile(py, true).unwrap();
    assert_eq!(
        cpp,
        "#include <iostream>\n#include <string>\n\nusing namespace std;\n\nint main() {\n    string aux;\n    cout << \"Edad: \";\n    cin >> aux;\n    int edad = stoi(aux);\n    cout << \"Tienes\" << \" \" << edad << endl;\n    return 0;\n}\n"
    );
}

#[test]
fn refuses_syntax_error() {
    assert_eq!(Code::transpile("print(1)\n", false), Err("Error de sintaxis".to_string()));
}

#[test]
fn refuses_unknown_command() {
    assert_eq!(
        Code::transpile("numero=1\nnumero++\n", true),
        Err("Comando no identificado".to_string())
    );
}

#[test]
fn refuses_empty_program() {
    assert_eq!(Code::transpile("", true), Err("Comando no identificado".to_string()));
}

#[test]
fn refuses_unknown_variable() {
    assert_eq!(
        Code::transpile("print(nada)\n", true),
        Err("La variable o función \"nada\" no encontrada".to_string())
    );
}

#[test]
fn refuses_unreadable_header() {
    assert_eq!(
        Code::transpile("def f(a_b):\n    return 1\n\nprint(1)\n", true),
        Err("Encabezado de función no válido".to_string())
    );
}

#[test]
fn refuses_missing_arguments() {
    assert_eq!(
        Code::transpile("def f(a, b):\n    return a\n\nvalor=f(1)\n", true),
        Err("Faltan argumentos en la llamada a una función".to_string())
    );
}

#[test]
fn refuses_text_loop_bound() {
    let py = "def f(a):\n    for i in range(0, a):\n        print(\"hola\")\n    return a\n\nvalor=f(\"texto\")\n";
    assert_eq!(
        Code::transpile(py, true),
        Err("Se debe usar números para definir los limites del for".to_string())
    );
}

#[test]
fn refuses_element_of_untyped_vector_in_loop() {
    let py = "def total(v):\n    s=0\n    for i in range(0, len(v)):\n        s=s+v[i]\n    return s\n\nlista=[]\nlista.append(1)\nsuma=total(lista)\n";
    assert_eq!(
        Code::transpile(py, true),
        Err("Error no se puede asignar un String a un int".to_string())
    );
}

#[test]
fn reads_program_with_sorted_libraries() {
    let py = "edad=int(input(\"Edad: \"))\nprint(edad)\nlista=[]\n";
    let code = Code::py2code(py).unwrap();
    let names: Vec<String> = code.libraries.iter().map(|l| l.name.clone()).collect();
    assert_eq!(names, vec!["iostream".to_string(), "string".to_string(), "vector".to_string()]);
    assert_eq!(code.functions.len(), 1);
    assert_eq!(code.functions[0].name, "main");
}

#[test]
fn filter_removes_comments_and_blank_lines() {
    assert_eq!(Code::filter("x=1 # uno\n\nprint(x)\n"), "x=1\nprint(x)");
}

#[test]
fn filter_joins_parameter_lists() {
    assert_eq!(Code::filter("f(1,\n2)\n"), "f(1,2)");
}

#[test]
fn shift_code_left_removes_one_level() {
    assert_eq!(Code::shift_code_left("    a=1\n        b=2\n"), "a=1\n    b=2\n");
}

#[test]
fn transpiles_generic_parameter() {
    let py = "def mostrar(a):\n    print(a)\n    return a\n\nuno=mostrar(1)\ntres=mostrar(\"dos\")\n";
    let cpp = Code::transpile(py, true).unwrap();
    assert_eq!(
        cpp,
        "#include <iostream>\n\nusing namespace std;\n\ntemplate <typename T>\n\nundefined mostrar(T a) {\n    cout << a << endl;\n    return a;\n}\n\nint main() {\n    undefined uno = mostrar(1);\n    undefined tres = mostrar(\"dos\");\n    return 0;\n}\n"
    );
}

#[test]
fn transpiles_nested_loops_without_libraries() {
    let py = "def f(n):\n    s=0\n    for i in range(0, n):\n        for j in range(0, n):\n            s=s+1\n    return s\n\ntotal=f(2)\n";
    let cpp = Code::transpile(py, true).unwrap();
    assert_eq!(
        cpp,
        "\nint f(int n) {\n    int s = 0;\n    for (int i = 0; i < n; i++) {\n        for (int j = 0; j < n; j++) {\n            s = s + 1;\n        }\n    }\n    return s;\n}\n\nint main() {\n    int total = f(2);\n    return 0;\n}\n"
    );
}

#[test]
fn earlier_function_refused_first() {
    let py = "def f(a):\n    for i in range(0, a):\n        print(\"hola\")\n    return a\n\ndef g(b, c):\n    return b\n\nvalor=f(\"texto\")\notro=g(1)\n";
    assert_eq!(
        Code::transpile(py, true),
        Err("Se debe usar números para definir los limites del for".to_string())
    );
}
