//! Tests of the pipeline from source text to a compiled program: what each
//! stage accepts and refuses, and the bytecode verifier.

use sga::runtime::{verify_program, Chunk, CompiledProgram, FunctionDef, OpCode};
use sga::sga_alphabet::encode_word;
use sga::{codegen, lexer, parser, semantic, SgaError};

fn kw(word: &str) -> String {
    encode_word(word)
}

fn run(source: &str) -> Result<CompiledProgram, SgaError> {
    sga::compile_source(source)
}

#[test]
fn test_arithmetic() {
    let src = format!("{} x = 2 + 3 * 4; {}(x);", kw("LET"), kw("PRINT"));
    assert!(run(&src).is_ok());
}

#[test]
fn test_immutable_assignment_is_rejected() {
    let src = format!("{} x = 5; x = 10;", kw("LET"));
    match run(&src) {
        Err(SgaError::Semantic(_)) => {}
        other => panic!("ожидалась ошибка семантики (immutable), получено {:?}", other),
    }
}

#[test]
fn test_mutable_var_can_be_reassigned() {
    let src = format!("{} x = 5; x = 10; {}(x);", kw("VAR"), kw("PRINT"));
    assert!(run(&src).is_ok());
}

#[test]
fn test_undefined_variable_is_rejected() {
    let src = format!("{}(y);", kw("PRINT"));
    match run(&src) {
        Err(SgaError::Semantic(_)) => {}
        other => panic!("ожидалась ошибка семантики (undefined), получено {:?}", other),
    }
}

#[test]
fn test_break_outside_loop_is_compile_error() {
    let src = kw("BREAK") + ";";
    match run(&src) {
        Err(SgaError::Semantic(_)) => {}
        other => panic!("ожидалась ошибка семантики (break вне цикла), получено {:?}", other),
    }
}

#[test]
fn test_function_recursion() {
    let src = format!(
        "{fn} factorial(n) {{ {if} n <= 1 {{ {ret} 1; }} {els} {{ {ret} n * factorial(n - 1); }} }} {pr}(factorial(6));",
        fn = kw("FN"),
        if = kw("IF"),
        ret = kw("RETURN"),
        els = kw("ELSE"),
        pr = kw("PRINT"),
    );
    assert!(run(&src).is_ok());
}

#[test]
fn test_for_loop_with_break_and_continue() {
    let src = format!(
        "{var} sum = 0; {for} i {in_} 0..10 {{ {if} i == 5 {{ {cont}; }} {if} i == 8 {{ {brk}; }} sum = sum + i; }} {pr}(sum);",
        var = kw("VAR"),
        for = kw("FOR"),
        in_ = kw("IN"),
        if = kw("IF"),
        cont = kw("CONTINUE"),
        brk = kw("BREAK"),
        pr = kw("PRINT"),
    );
    assert!(run(&src).is_ok());
}

#[test]
fn test_lexer_rejects_unknown_sga_word() {
    // 'XQZ' не входит в таблицу ключевых слов
    let bad = encode_word("XQZ");
    let tokens = lexer::Lexer::new(&bad).tokenize();
    assert!(tokens.is_err());
}

#[test]
fn test_parser_produces_expected_statement_count() {
    let src = format!("{} a = 1; {} b = 2;", kw("LET"), kw("LET"));
    let tokens = lexer::Lexer::new(&src).tokenize().unwrap();
    let program = parser::Parser::new(tokens).parse_program().unwrap();
    assert_eq!(program.len(), 2);
}

#[test]
fn test_deeply_nested_parens_returns_parse_error_not_stack_overflow() {
    let depth = 100_000;
    let expr = format!("{}1{}", "(".repeat(depth), ")".repeat(depth));
    let src = format!("{} x = {};", kw("LET"), expr);
    match sga::parse_source(&src) {
        Err(SgaError::Parse(msg)) => assert!(
            msg.contains("глубин"),
            "ошибка должна явно объяснять превышение глубины вложенности, получено: {}",
            msg
        ),
        other => panic!("ожидалась ошибка парсера (глубина вложенности), получено {:?}", other.map(|p| p.len())),
    }
}

#[test]
fn test_moderately_nested_parens_still_parses_successfully() {
    let depth = 50;
    let mut expr = String::from("1");
    for _ in 0..depth {
        expr = format!("({})", expr);
    }
    let src = format!("{} x = {}; {}(x);", kw("LET"), expr, kw("PRINT"));
    assert!(run(&src).is_ok());
}

#[test]
fn test_codegen_produces_nonempty_chunk() {
    let src = format!("{}(1);", kw("PRINT"));
    let tokens = lexer::Lexer::new(&src).tokenize().unwrap();
    let program = parser::Parser::new(tokens).parse_program().unwrap();
    semantic::Analyzer::new().analyze(&program).unwrap();
    let compiled = codegen::compile(&program);
    assert!(!compiled.main.code.is_empty());
}

#[test]
fn test_vm_string_concatenation() {
    let src = format!("{} s = \"foo\" + \"bar\"; {}(s);", kw("LET"), kw("PRINT"));
    assert!(run(&src).is_ok());
}

#[test]
fn test_vm_array_mutation_via_push_and_index() {
    let src = format!(
        "{var} a = [1, 2]; {push}(a, 3); a[0] = 99; {pr}(a);",
        var = kw("VAR"),
        push = "push",
        pr = kw("PRINT"),
    );
    assert!(run(&src).is_ok());
}

#[test]
fn test_immutable_array_index_assignment_is_rejected() {
    let src = format!("{} a = [1, 2, 3]; a[0] = 99;", kw("LET"));
    match run(&src) {
        Err(SgaError::Semantic(msg)) => assert!(msg.contains("immutable")),
        other => panic!("ожидалась ошибка семантики (immutable через индекс), получено {:?}", other),
    }
}

#[test]
fn test_immutable_array_push_is_rejected() {
    let src = format!("{} a = [1, 2, 3]; push(a, 4);", kw("LET"));
    match run(&src) {
        Err(SgaError::Semantic(msg)) => assert!(msg.contains("immutable")),
        other => panic!("ожидалась ошибка семантики (immutable через push), получено {:?}", other),
    }
}

#[test]
fn test_self_referential_array_does_not_crash_on_print() {
    let src = format!("{var} a = [1, 2, 3]; a[0] = a; {pr}(a);", var = kw("VAR"), pr = kw("PRINT"));
    assert!(run(&src).is_ok());
}

#[test]
fn test_immutability_bypass_through_function_parameter_is_now_fixed() {
    let src = format!(
        "{fn} mutate(arr) {{ arr[0] = 999; }} {let_} frozen = [1, 2, 3]; mutate(frozen);",
        fn = kw("FN"),
        let_ = kw("LET"),
    );
    match run(&src) {
        Err(SgaError::Semantic(msg)) => assert!(msg.contains("immutable")),
        other => panic!("ожидалась ошибка семантики (immutable-параметр без MUT), получено {:?}", other),
    }
}

#[test]
fn test_mut_parameter_with_var_argument_allows_mutation_across_call_boundary() {
    let src = format!(
        "{fn} mutate({mut_} arr) {{ arr[0] = 999; }} {var} data = [1, 2, 3]; mutate(data); {pr}(data);",
        fn = kw("FN"),
        mut_ = kw("MUT"),
        var = kw("VAR"),
        pr = kw("PRINT"),
    );
    assert!(run(&src).is_ok());
}

#[test]
fn test_passing_immutable_variable_to_mut_parameter_is_rejected() {
    let src = format!(
        "{fn} mutate({mut_} arr) {{ arr[0] = 999; }} {let_} frozen = [1, 2, 3]; mutate(frozen);",
        fn = kw("FN"),
        mut_ = kw("MUT"),
        let_ = kw("LET"),
    );
    match run(&src) {
        Err(SgaError::Semantic(msg)) => assert!(msg.contains("MUT")),
        other => panic!("ожидалась ошибка семантики (передача LET в MUT-параметр), получено {:?}", other),
    }
}

#[test]
fn test_immutable_parameter_can_still_be_read_freely() {
    let src = format!(
        "{fn} first(arr) {{ {ret} arr[0]; }} {let_} data = [10, 20, 30]; {pr}(first(data));",
        fn = kw("FN"),
        ret = kw("RETURN"),
        let_ = kw("LET"),
        pr = kw("PRINT"),
    );
    assert!(run(&src).is_ok());
}

#[test]
fn test_mutable_array_index_assignment_and_push_still_work() {
    let src = format!(
        "{var} a = [1, 2, 3]; a[0] = 99; {push}(a, 4); {pr}(a);",
        var = kw("VAR"),
        push = "push",
        pr = kw("PRINT"),
    );
    assert!(run(&src).is_ok());
}

#[test]
fn test_typed_var_decl_with_matching_value_is_ok() {
    let src = format!("{} x: int = 5; {}(x);", kw("LET"), kw("PRINT"));
    assert!(run(&src).is_ok());
}

#[test]
fn test_typed_var_decl_with_mismatched_value_is_type_error() {
    let src = format!("{} x: int = \"hello\";", kw("LET"));
    match run(&src) {
        Err(SgaError::Type(_)) => {}
        other => panic!("ожидалась ошибка типов, получено {:?}", other),
    }
}

#[test]
fn test_int_literal_satisfies_float_param_via_promotion() {
    // int -> float is allowed, the other way round is not.
    let src = format!("{} x: float = 5;", kw("LET"));
    assert!(run(&src).is_ok());
}

#[test]
fn test_typed_function_param_and_return_mismatch_is_rejected() {
    let src = format!(
        "{fn} add(a: int, b: int) -> int {{ {ret} a + b; }} {pr}(add(1, \"two\"));",
        fn = kw("FN"),
        ret = kw("RETURN"),
        pr = kw("PRINT"),
    );
    match run(&src) {
        Err(SgaError::Type(_)) => {}
        other => panic!("ожидалась ошибка типов (аргумент), получено {:?}", other),
    }
}

#[test]
fn test_typed_function_return_value_mismatch_is_rejected() {
    let src = format!(
        "{fn} bad() -> int {{ {ret} \"oops\"; }} {pr}(bad());",
        fn = kw("FN"),
        ret = kw("RETURN"),
        pr = kw("PRINT"),
    );
    match run(&src) {
        Err(SgaError::Type(_)) => {}
        other => panic!("ожидалась ошибка типов (return), получено {:?}", other),
    }
}

#[test]
fn test_typed_function_correct_usage_is_ok() {
    let src = format!(
        "{fn} add(a: int, b: int) -> int {{ {ret} a + b; }} {pr}(add(2, 3));",
        fn = kw("FN"),
        ret = kw("RETURN"),
        pr = kw("PRINT"),
    );
    assert!(run(&src).is_ok());
}

#[test]
fn test_typed_var_reassignment_with_wrong_type_is_rejected() {
    let src = format!("{} x: int = 5; x = \"теперь строка\";", kw("VAR"));
    match run(&src) {
        Err(SgaError::Type(_)) => {}
        other => panic!("ожидалась ошибка типов при переприсваивании, получено {:?}", other),
    }
}

#[test]
fn test_untyped_var_can_still_change_type_freely() {
    let src = format!("{var} x = 5; x = \"теперь строка\"; {pr}(x);", var = kw("VAR"), pr = kw("PRINT"));
    assert!(run(&src).is_ok());
}

#[test]
fn test_typed_and_untyped_code_coexist_in_same_program() {
    let src = format!(
        "{let_} typed_x: int = 10; {var} untyped_y = 5; untyped_y = \"строка\"; {pr}(typed_x); {pr}(untyped_y);",
        let_ = kw("LET"),
        var = kw("VAR"),
        pr = kw("PRINT"),
    );
    assert!(run(&src).is_ok());
}

#[test]
fn test_builtin_len_return_type_signature_is_checked() {
    let ok = format!("{} n: int = len([1, 2, 3]); {}(n);", kw("LET"), kw("PRINT"));
    assert!(run(&ok).is_ok());

    let bad = format!("{} n: string = len([1, 2, 3]);", kw("LET"));
    match run(&bad) {
        Err(SgaError::Type(_)) => {}
        other => panic!("ожидалась ошибка типов (len -> int, не string), получено {:?}", other),
    }
}

#[test]
fn test_array_index_must_be_int_when_statically_known() {
    let src =
        format!("{} idx: bool = {}; {} a = [1, 2, 3]; {}(a[idx]);", kw("LET"), kw("TRUE"), kw("VAR"), kw("PRINT"));
    match run(&src) {
        Err(SgaError::Type(_)) => {}
        other => panic!("ожидалась ошибка типов (индекс должен быть int), получено {:?}", other),
    }
}

#[test]
fn test_nested_fn_declaration_is_rejected_by_parser() {
    let src = format!(
        "{fn} outer() {{ {fn} inner() {{ {ret} 1; }} {ret} inner(); }}",
        fn = kw("FN"),
        ret = kw("RETURN"),
    );
    match run(&src) {
        Err(SgaError::Parse(_)) => {}
        other => panic!("ожидалась ошибка парсера (вложенный FN), получено {:?}", other),
    }
}

#[test]
fn test_builtin_call_with_wrong_arity_is_semantic_error() {
    let src = format!("{}(len());", kw("PRINT"));
    match run(&src) {
        Err(SgaError::Semantic(_)) => {}
        other => panic!("ожидалась ошибка семантики (len без аргументов), получено {:?}", other),
    }
}

#[test]
fn test_push_with_variable_arity_one_or_two_args_is_accepted() {
    let src = format!("{var} a = [1]; {push}(a); {push}(a, 2); {pr}(a);", var = kw("VAR"), push = "push", pr = kw("PRINT"));
    assert!(run(&src).is_ok());
}

#[test]
fn test_push_with_three_args_is_semantic_error() {
    let src = format!("{var} a = [1]; {push}(a, 2, 3);", var = kw("VAR"), push = "push");
    match run(&src) {
        Err(SgaError::Semantic(_)) => {}
        other => panic!("ожидалась ошибка семантики (push с 3 аргументами), получено {:?}", other),
    }
}

#[test]
fn test_vm_rejects_chunk_with_out_of_bounds_const_index_instead_of_panicking() {
    let chunk = Chunk {
        // constants пуст, но PushConst ссылается на индекс 0 — нет такого элемента
        code: vec![OpCode::PushConst(0), OpCode::Return(true)],
        constants: vec![],
    };
    let program = CompiledProgram { main: chunk, functions: vec![] };
    match verify_program(&program) {
        Err(_) => {}
        Ok(_) => panic!("ожидалась ошибка верификации байткода (PushConst вне границ пула констант), получен Ok"),
    }
}

#[test]
fn test_vm_rejects_chunk_with_jump_target_past_end() {
    let chunk = Chunk { code: vec![OpCode::Jump(99), OpCode::Return(false)], constants: vec![] };
    let program = CompiledProgram { main: chunk, functions: vec![] };
    match verify_program(&program) {
        Err(_) => {}
        Ok(_) => panic!("ожидалась ошибка верификации байткода (Jump за пределы чанка), получен Ok"),
    }
}

#[test]
fn test_vm_accepts_chunk_with_jump_target_exactly_at_end() {
    let chunk = Chunk { code: vec![OpCode::Jump(1), OpCode::Return(false)], constants: vec![] };
    let program = CompiledProgram { main: chunk, functions: vec![] };
    assert!(verify_program(&program).is_ok());
}

#[test]
fn test_vm_rejects_corrupted_function_chunk_not_just_main() {
    let bad_fn_chunk = Chunk { code: vec![OpCode::PushConst(5), OpCode::Return(true)], constants: vec![] };
    let mut functions = Vec::new();
    functions.push(("broken".to_string(), FunctionDef { params: vec![], param_mut: vec![], chunk: bad_fn_chunk }));
    let program = CompiledProgram { main: Chunk { code: vec![OpCode::Return(false)], constants: vec![] }, functions };
    match verify_program(&program) {
        Err(_) => {}
        Ok(_) => panic!("ожидалась ошибка верификации байткода функции 'broken', получен Ok"),
    }
}

#[test]
fn test_assigning_to_captured_immutable_variable_inside_closure_is_semantic_error() {
    let src = format!(
        "{let_} total = 0; {let_} f = {fn}() {{ total = total + 1; }};",
        let_ = kw("LET"),
        fn = kw("FN"),
    );
    match run(&src) {
        Err(SgaError::Semantic(_)) => {}
        other => panic!("ожидалась SemError при присваивании захваченной immutable-переменной, получено {:?}", other),
    }
}

#[test]
fn test_break_inside_closure_created_in_loop_is_semantic_error() {
    let src = format!(
        "{while_} {true_} {{ {let_} f = {fn}() {{ {brk}; }}; }}",
        while_ = kw("WHILE"),
        true_ = kw("TRUE"),
        let_ = kw("LET"),
        fn = kw("FN"),
        brk = kw("BREAK"),
    );
    match run(&src) {
        Err(SgaError::Semantic(_)) => {}
        other => panic!("ожидалась SemError (break внутри замыкания не может прервать внешний цикл), получено {:?}", other),
    }
}

#[test]
fn test_struct_field_assign_through_let_is_rejected() {
    let src = format!(
        "{struct_} Pair {{ a, b }} {let_} p = Pair {{ a: 1, b: 2 }}; p.a = 99;",
        struct_ = kw("STRUCT"),
        let_ = kw("LET"),
    );
    match run(&src) {
        Err(SgaError::Semantic(_)) => {}
        other => panic!(
            "ожидалась SemError: присваивание полю struct через LET-переменную должно быть запрещено, получено {:?}",
            other
        ),
    }
}

#[test]
fn test_struct_method_call_without_mut_self_cannot_mutate_field() {
    let src = format!(
        "{struct_} Point {{ x }} \
         {fn_} Point_break(self) {{ self.x = 999; }} \
         {var} p = Point {{ x: 1 }}; p.break();",
        struct_ = kw("STRUCT"),
        fn_ = kw("FN"),
        var = kw("VAR"),
    );
    match run(&src) {
        Err(SgaError::Semantic(_)) => {}
        other => panic!(
            "ожидалась SemError: метод без MUT self не должен мочь присваивать self.field, получено {:?}",
            other
        ),
    }
}

#[test]
fn test_struct_unknown_type_is_semantic_error() {
    let src = "p = Ghost { x: 1 };".to_string();
    match run(&src) {
        Err(SgaError::Semantic(_)) => {}
        other => panic!("ожидалась SemError для неизвестного типа struct, получено {:?}", other),
    }
}

#[test]
fn test_struct_unknown_field_in_literal_is_semantic_error() {
    let src = format!(
        "{struct_} Point {{ x, y }} p = Point {{ z: 1 }};",
        struct_ = kw("STRUCT"),
    );
    match run(&src) {
        Err(SgaError::Semantic(_)) => {}
        other => panic!("ожидалась SemError для неизвестного поля в литерале struct, получено {:?}", other),
    }
}

#[test]
fn test_stdlib_builtin_arity_is_checked_for_new_functions() {
    // Every builtin has its arity checked by the semantic analysis.
    match run("sqrt();") {
        Err(SgaError::Semantic(_)) => {}
        other => panic!("ожидалась SemError для sqrt() без аргументов, получено {:?}", other),
    }
    match run("str_replace(\"a\", \"b\");") {
        Err(SgaError::Semantic(_)) => {}
        other => panic!("ожидалась SemError для str_replace() с 2 аргументами вместо 3, получено {:?}", other),
    }
}
