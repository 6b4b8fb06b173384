//! Tests of the library's own guarantees on concrete values: the SGA
//! alphabet, error texts, type rules, integer arithmetic of the machine,
//! the bytecode produced by the compiler and the bytecode verifier.

use sga::ast::BinOp;
use sga::ast::TypeAnnotation as Ty;
use sga::lexer::token::TokenKind;
use sga::lexer::Lexer;
use sga::runtime::{
    int_arith, is_builtin, normalize_index, verify_chunk, verify_program, Chunk, CompiledProgram, Constant, FunctionDef,
    OpCode,
};
use sga::sga_alphabet::{decode_word, encode_word, is_sga_letter, letter_to_sga, sga_to_letter};
use sga::typechecker::{compatible, infer_binary, show};
use sga::{check_program, compile_source, parse_source, reject_imports, SgaError};

fn kw(word: &str) -> String {
    encode_word(word)
}

fn main_code(src: &str) -> Vec<OpCode> {
    compile_source(src).unwrap().main.code
}

// ------------------------------------------------------------------ alphabet

#[test]
fn letters_map_to_consecutive_sga_code_points() {
    assert_eq!(letter_to_sga('A'), Some('\u{EB40}'));
    assert_eq!(letter_to_sga('z'), Some('\u{EB59}'));
    assert_eq!(letter_to_sga('1'), None);
    assert_eq!(sga_to_letter('\u{EB41}'), Some('B'));
    assert_eq!(sga_to_letter('\u{EB5A}'), None);
    assert!(is_sga_letter('\u{EB45}'));
    assert!(!is_sga_letter('E'));
}

#[test]
fn every_letter_round_trips_through_the_alphabet() {
    for c in 'A'..='Z' {
        let s = letter_to_sga(c).unwrap();
        assert_eq!(sga_to_letter(s), Some(c));
        assert_eq!(letter_to_sga(c.to_ascii_lowercase()), Some(s));
    }
}

#[test]
fn decoding_an_encoded_word_gives_its_upper_case_letters() {
    assert_eq!(decode_word(&encode_word("While")), "WHILE");
    assert_eq!(decode_word(&encode_word("a-b c")), "ABC");
    assert_eq!(encode_word("let"), encode_word("LET"));
    assert_eq!(encode_word(""), "");
}

// ------------------------------------------------------------------ lexer

#[test]
fn unexpected_character_message_names_its_code_point() {
    let err = Lexer::new("x @").tokenize().unwrap_err();
    assert_eq!(err.message, "неожиданный символ '@' (U+0040)");
    assert_eq!((err.line, err.col), (1, 3));
    assert_eq!(err.describe(), "[1:3] ошибка лексера: неожиданный символ '@' (U+0040)");
}

#[test]
fn tokenizing_always_ends_with_a_single_eof() {
    for src in ["", "1", "  \n", "LET_ x = 2;", "\"s\" + 1.5"] {
        let tokens = Lexer::new(src).tokenize().unwrap();
        assert_eq!(tokens.last().unwrap().kind, TokenKind::Eof);
        assert_eq!(tokens.iter().filter(|t| t.kind == TokenKind::Eof).count(), 1);
    }
}

// ------------------------------------------------------------------ parser

#[test]
fn parse_error_text_has_position_and_stage() {
    let src = format!("{} = 1;", kw("LET"));
    match parse_source(&src) {
        Err(SgaError::Parse(m)) => assert!(m.starts_with("[1:"), "получено: {m}"),
        other => panic!("ожидалась ошибка парсера, получено {other:?}"),
    }
}

#[test]
fn top_level_only_statements_are_refused_inside_blocks() {
    let cases = [
        (format!("{} 1 {{ {} S {{ a }} }}", kw("WHILE"), kw("STRUCT")), "STRUCT допустим только на верхнем уровне программы"),
        (
            format!("{{ {} \"x.sga\"; }}", kw("IMPORT")),
            "IMPORT допустим только на верхнем уровне программы",
        ),
        (format!("{{ {} g() {{ }} }}", kw("FN")), "вложенные объявления функций (FN имя(...)) не поддерживаются"),
    ];
    for (src, msg) in cases.iter() {
        match parse_source(src) {
            Err(SgaError::Parse(m)) => assert!(m.contains(msg), "получено: {m}"),
            other => panic!("ожидалась ошибка парсера, получено {other:?}"),
        }
    }
    let top = format!("{} S {{ a }}\n{} \"x.sga\";\n{} g() {{ }}", kw("STRUCT"), kw("IMPORT"), kw("FN"));
    assert_eq!(parse_source(&top).unwrap().len(), 3);
}

// ------------------------------------------------------------------ semantic and types

#[test]
fn semantic_error_texts_are_exact() {
    match compile_source(&(kw("BREAK") + ";")) {
        Err(SgaError::Semantic(m)) => assert_eq!(m, "ошибка семантики: BREAK вне цикла"),
        other => panic!("{other:?}"),
    }
    match compile_source(&(kw("RETURN") + " 1;")) {
        Err(SgaError::Semantic(m)) => assert_eq!(m, "ошибка семантики: RETURN вне функции"),
        other => panic!("{other:?}"),
    }
    match compile_source("print(zz);") {
        Err(SgaError::Semantic(m)) => assert_eq!(m, "ошибка семантики: неопределённая функция 'print'"),
        other => panic!("{other:?}"),
    }
    match compile_source("len(1, 2);") {
        Err(SgaError::Semantic(m)) => {
            assert_eq!(m, "ошибка семантики: функция 'len' ожидает 1 аргумент(ов), передано 2")
        }
        other => panic!("{other:?}"),
    }
    match compile_source("push();") {
        Err(SgaError::Semantic(m)) => {
            assert_eq!(m, "ошибка семантики: функция 'push' ожидает от 1 до 2 аргумент(ов), передано 0")
        }
        other => panic!("{other:?}"),
    }
}

#[test]
fn duplicate_declarations_are_refused() {
    let src = format!("{f} a() {{ }} {f} a() {{ }}", f = kw("FN"));
    match compile_source(&src) {
        Err(SgaError::Semantic(m)) => assert_eq!(m, "ошибка семантики: функция 'a' уже объявлена"),
        other => panic!("{other:?}"),
    }
    let src = format!("{l} x = 1; {l} x = 2;", l = kw("LET"));
    match compile_source(&src) {
        Err(SgaError::Semantic(m)) => {
            assert_eq!(m, "ошибка семантики: переменная 'x' уже объявлена в этой области видимости")
        }
        other => panic!("{other:?}"),
    }
}

#[test]
fn borrow_error_names_argument_position() {
    let src = format!(
        "{f} g(a, {m} b) {{ }} {l} x = [1]; {v} y = [2]; g(y, x);",
        f = kw("FN"),
        m = kw("MUT"),
        l = kw("LET"),
        v = kw("VAR")
    );
    match compile_source(&src) {
        Err(SgaError::Semantic(m)) => assert_eq!(
            m,
            "ошибка семантики: нельзя передать immutable-переменную 'x' в параметр 2 функции 'g', объявленный как MUT (требуется VAR)"
        ),
        other => panic!("{other:?}"),
    }
}

#[test]
fn type_compatibility_rules() {
    assert!(compatible(Ty::Any, Ty::Int));
    assert!(compatible(Ty::Bool, Ty::Any));
    assert!(compatible(Ty::Float, Ty::Int));
    assert!(!compatible(Ty::Int, Ty::Float));
    assert!(compatible(Ty::String, Ty::String));
    assert!(!compatible(Ty::String, Ty::Array));
    assert_eq!(show(Ty::Closure), "closure");
    assert_eq!(show(Ty::Nil), "nil");
}

#[test]
fn binary_operator_types() {
    assert_eq!(infer_binary(BinOp::Add, Ty::Int, Ty::Int).unwrap(), Ty::Int);
    assert_eq!(infer_binary(BinOp::Add, Ty::Int, Ty::Float).unwrap(), Ty::Float);
    assert_eq!(infer_binary(BinOp::Add, Ty::String, Ty::String).unwrap(), Ty::String);
    assert_eq!(infer_binary(BinOp::Mul, Ty::Any, Ty::String).unwrap(), Ty::Any);
    assert_eq!(infer_binary(BinOp::Lt, Ty::String, Ty::Array).unwrap(), Ty::Bool);
    assert_eq!(infer_binary(BinOp::Add, Ty::String, Ty::Int).unwrap_err().message, "оператор '+' не определён для string и int");
    assert_eq!(
        infer_binary(BinOp::Sub, Ty::String, Ty::String).unwrap_err().message,
        "арифметический оператор не определён для string и string"
    );
}

#[test]
fn type_error_texts_are_exact() {
    let src = format!("{} x: int = \"hello\";", kw("LET"));
    match compile_source(&src) {
        Err(SgaError::Type(m)) => {
            assert_eq!(m, "ошибка типов: переменная 'x' объявлена с типом int, но присвоено значение типа string")
        }
        other => panic!("{other:?}"),
    }
    let src = format!("{f} f(a: int) {{ }} f(1.5);", f = kw("FN"));
    match compile_source(&src) {
        Err(SgaError::Type(m)) => {
            assert_eq!(m, "ошибка типов: функция 'f': аргумент 1 должен быть int, передан float")
        }
        other => panic!("{other:?}"),
    }
    let src = format!("{l} x: string = 1; x;", l = kw("LET"));
    assert!(matches!(compile_source(&src), Err(SgaError::Type(_))));
}

#[test]
fn a_later_user_function_replaces_a_builtin_signature() {
    let src = format!("{f} len(a: string) -> string {{ {r} a; }} {l} s: string = len(\"x\");", f = kw("FN"), r = kw("RETURN"), l = kw("LET"));
    assert!(compile_source(&src).is_ok());
}

#[test]
fn import_without_file_context_is_refused() {
    let src = format!("{} \"lib.sga\";", kw("IMPORT"));
    let program = parse_source(&src).unwrap();
    match reject_imports(&program) {
        Err(SgaError::Import(m)) => assert_eq!(
            m,
            "IMPORT \"lib.sga\" использован в run_source(), у которого нет файлового контекста для резолвинга путей; используйте run_source_file()"
        ),
        other => panic!("{other:?}"),
    }
    match check_program(&program) {
        Err(SgaError::Semantic(m)) => assert!(m.contains("не был резолвлен")),
        other => panic!("{other:?}"),
    }
}

// ------------------------------------------------------------------ integer arithmetic

#[test]
fn integer_arithmetic_is_checked() {
    assert_eq!(int_arith(&OpCode::Add, 2, 3).unwrap(), 5);
    assert_eq!(int_arith(&OpCode::Sub, 2, 3).unwrap(), -1);
    assert_eq!(int_arith(&OpCode::Mul, -4, 3).unwrap(), -12);
    assert_eq!(int_arith(&OpCode::Div, -7, 2).unwrap(), -3);
    assert_eq!(int_arith(&OpCode::Mod, -7, 3).unwrap(), -1);
    assert_eq!(int_arith(&OpCode::Add, i64::MAX, 1).unwrap_err().0, "переполнение int при сложении");
    assert_eq!(int_arith(&OpCode::Sub, i64::MIN, 1).unwrap_err().0, "переполнение int при вычитании");
    assert_eq!(int_arith(&OpCode::Mul, i64::MAX, 2).unwrap_err().0, "переполнение int при умножении");
    assert_eq!(int_arith(&OpCode::Div, i64::MIN, -1).unwrap_err().0, "переполнение int при делении");
    assert_eq!(int_arith(&OpCode::Div, 1, 0).unwrap_err().0, "деление на ноль");
    assert_eq!(int_arith(&OpCode::Mod, 1, 0).unwrap_err().0, "деление на ноль (остаток)");
    assert_eq!(int_arith(&OpCode::Mod, i64::MIN, -1).unwrap_err().0, "переполнение int при остатке");
    assert_eq!(int_arith(&OpCode::Mod, i64::MIN, 1).unwrap(), 0);
}

#[test]
fn indices_are_bounds_checked() {
    assert_eq!(normalize_index(0, 3).unwrap(), 0);
    assert_eq!(normalize_index(2, 3).unwrap(), 2);
    assert_eq!(normalize_index(3, 3).unwrap_err().0, "индекс 3 выходит за границы массива длины 3");
    assert_eq!(normalize_index(-1, 3).unwrap_err().0, "индекс -1 выходит за границы массива длины 3");
    assert!(normalize_index(0, 0).is_err());
}

#[test]
fn builtin_names() {
    assert!(is_builtin("len"));
    assert!(is_builtin("str_lower"));
    assert!(is_builtin("range"));
    assert!(is_builtin("json_parse"));
    assert!(is_builtin("json_stringify"));
    assert!(!is_builtin("Len"));
    assert!(!is_builtin("LEN"));
    assert!(!is_builtin(""));
    assert_eq!(sga::runtime::builtin_arity("json_parse"), Some((1, 1)));
    assert_eq!(sga::runtime::builtin_arity("json_stringify"), Some((1, 1)));
}

#[test]
fn json_builtins_compile_and_are_typed() {
    let ok = format!(
        "{l} s = json_stringify([1, 2]); {l} v = json_parse(s); {p}(v);",
        l = kw("LET"),
        p = kw("PRINT")
    );
    assert!(compile_source(&ok).is_ok());
    match compile_source(&format!("{} s: int = json_stringify(1);", kw("LET"))) {
        Err(SgaError::Type(_)) => {}
        other => panic!("ожидалась ошибка типов, получено {other:?}"),
    }
    match compile_source("json_parse();") {
        Err(SgaError::Semantic(_)) => {}
        other => panic!("ожидалась ошибка семантики (арность), получено {other:?}"),
    }
}

// ------------------------------------------------------------------ code generation

#[test]
fn declaration_compiles_to_push_and_define() {
    let program = compile_source(&format!("{} x = 1;", kw("LET"))).unwrap();
    assert_eq!(
        program.main.code,
        vec![OpCode::PushConst(0), OpCode::DefineVar("x".to_string(), false), OpCode::Return(false)]
    );
    assert_eq!(program.main.constants, vec![Constant::Int(1)]);
}

#[test]
fn last_expression_statement_is_the_program_value() {
    assert_eq!(
        main_code("1 + 2;"),
        vec![OpCode::PushConst(0), OpCode::PushConst(1), OpCode::Add, OpCode::Return(true), OpCode::Return(false)]
    );
    assert_eq!(
        main_code("1; 2.5;"),
        vec![OpCode::PushConst(0), OpCode::Pop, OpCode::PushConst(1), OpCode::Return(true), OpCode::Return(false)]
    );
    let program = compile_source("2.5;").unwrap();
    assert_eq!(program.main.constants, vec![Constant::Float("2.5".to_string())]);
}

#[test]
fn while_loop_jumps_are_patched() {
    let src = format!("{w} {t} {{ {b}; }}", w = kw("WHILE"), t = kw("TRUE"), b = kw("BREAK"));
    assert_eq!(
        main_code(&src),
        vec![
            OpCode::PushConst(0),
            OpCode::JumpIfFalse(6),
            OpCode::PushScope,
            OpCode::Jump(6),
            OpCode::PopScope,
            OpCode::Jump(0),
            OpCode::Return(false),
        ]
    );
}

#[test]
fn for_loop_continue_jumps_to_the_increment() {
    let src = format!("{f} i {n} 0..3 {{ {c}; }}", f = kw("FOR"), n = kw("IN"), c = kw("CONTINUE"));
    assert_eq!(
        main_code(&src),
        vec![
            OpCode::PushConst(0),
            OpCode::DefineVar("i".to_string(), true),
            OpCode::LoadVar("i".to_string()),
            OpCode::PushConst(1),
            OpCode::Lt,
            OpCode::JumpIfFalse(15),
            OpCode::PushScope,
            OpCode::Jump(9),
            OpCode::PopScope,
            OpCode::LoadVar("i".to_string()),
            OpCode::PushConst(2),
            OpCode::Add,
            OpCode::StoreVar("i".to_string()),
            OpCode::Pop,
            OpCode::Jump(2),
            OpCode::Return(false),
        ]
    );
}

#[test]
fn if_else_jumps_are_patched() {
    let src = format!("{i} {t} {{ 1; }} {e} {{ 2; }}", i = kw("IF"), t = kw("TRUE"), e = kw("ELSE"));
    assert_eq!(
        main_code(&src),
        vec![
            OpCode::PushConst(0),
            OpCode::JumpIfFalse(7),
            OpCode::PushScope,
            OpCode::PushConst(1),
            OpCode::Pop,
            OpCode::PopScope,
            OpCode::Jump(11),
            OpCode::PushScope,
            OpCode::PushConst(2),
            OpCode::Pop,
            OpCode::PopScope,
            OpCode::Return(false),
        ]
    );
}

#[test]
fn calls_of_variables_go_through_call_value() {
    let src = format!("{l} f = {fun}(a) {{ {r} a; }}; f(1);", l = kw("LET"), fun = kw("FN"), r = kw("RETURN"));
    let program = compile_source(&src).unwrap();
    let code = &program.main.code;
    assert!(matches!(&code[0], OpCode::MakeClosure { params, body } if params == &vec!["a".to_string()]
        && body.code == vec![OpCode::LoadVar("a".to_string()), OpCode::Return(true), OpCode::Return(false)]));
    assert_eq!(code[2], OpCode::LoadVar("f".to_string()));
    assert_eq!(code[4], OpCode::CallValue(1));
    assert_eq!(main_code("len(\"ab\");")[1], OpCode::Call("len".to_string(), 1));
}

#[test]
fn named_functions_get_chunks_of_their_own() {
    let src = format!("{f} g({m} a) {{ }} g(1);", f = kw("FN"), m = kw("MUT"));
    let program = compile_source(&src).unwrap();
    assert_eq!(program.functions.len(), 1);
    let (name, def) = &program.functions[0];
    assert_eq!(name, "g");
    assert_eq!(def.params, vec!["a".to_string()]);
    assert_eq!(def.param_mut, vec![true]);
    assert_eq!(def.chunk.code, vec![OpCode::Return(false)]);
    assert_eq!(program.main.code[1], OpCode::Call("g".to_string(), 1));
}

#[test]
fn compiled_programs_pass_the_verifier() {
    let sources = [
        format!("{w} {t} {{ {b}; {c}; }}", w = kw("WHILE"), t = kw("TRUE"), b = kw("BREAK"), c = kw("CONTINUE")),
        format!("{l} f = {fun}() {{ {r} [1, 2.5, \"s\", {n}]; }}; f();", l = kw("LET"), fun = kw("FN"), r = kw("RETURN"), n = kw("NIL")),
        format!("{s} P {{ x }} {v} p = P {{ x: 1 }}; p.x = 2; p.x;", s = kw("STRUCT"), v = kw("VAR")),
    ];
    for src in sources.iter() {
        let program = compile_source(src).unwrap();
        assert!(verify_program(&program).is_ok(), "{src}");
    }
}

// ------------------------------------------------------------------ verifier

#[test]
fn verifier_messages_are_exact() {
    let c = Chunk { code: vec![OpCode::Pop, OpCode::PushConst(3)], constants: vec![Constant::Nil] };
    assert_eq!(
        verify_chunk(&c).unwrap_err().0,
        "повреждённый байткод: PushConst(3) на позиции 1 ссылается за пределы пула констант (размер 1)"
    );
    let c = Chunk { code: vec![OpCode::JumpIfFalse(5)], constants: vec![] };
    assert_eq!(
        verify_chunk(&c).unwrap_err().0,
        "повреждённый байткод: переход на позиции 0 ведёт за пределы чанка (target=5, длина чанка=1)"
    );
    let inner = Chunk { code: vec![OpCode::Jump(2)], constants: vec![] };
    let c = Chunk {
        code: vec![OpCode::Pop, OpCode::MakeClosure { params: vec![], body: Box::new(inner) }],
        constants: vec![],
    };
    assert_eq!(
        verify_chunk(&c).unwrap_err().0,
        "в теле замыкания (MakeClosure на позиции 1): повреждённый байткод: переход на позиции 0 ведёт за пределы чанка (target=2, длина чанка=1)"
    );
}

#[test]
fn verifier_names_the_broken_function() {
    let bad = Chunk { code: vec![OpCode::PushConst(0)], constants: vec![] };
    let program = CompiledProgram {
        main: Chunk { code: vec![OpCode::Return(false)], constants: vec![] },
        functions: vec![(
            "f".to_string(),
            FunctionDef { params: vec![], param_mut: vec![], chunk: bad },
        )],
    };
    let e = verify_program(&program).unwrap_err();
    assert_eq!(
        e.0,
        "в функции 'f': повреждённый байткод: PushConst(0) на позиции 0 ссылается за пределы пула констант (размер 0)"
    );
    assert!(e.describe().starts_with("ошибка выполнения: в функции 'f'"));
}

#[test]
fn new_project_program_greets() {
    let src = sga::encode_hello_world();
    assert_eq!(
        src,
        format!("{} message = \"Hello, SGA!\";\n{}(message);\n", kw("LET"), kw("PRINT"))
    );
    assert!(compile_source(&src).is_ok());
}
