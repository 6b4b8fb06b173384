//! Tests of `IMPORT` resolution, with the files held in memory: the test
//! plays the part of the caller of the resolver's state machine.

use sga::ast::{Expr, Program, Stmt};
use sga::module_resolver::{ImportError, LoadOutcome, ResolveAction, Resolver};
use sga::sga_alphabet::encode_word;

fn kw(word: &str) -> String {
    encode_word(word)
}

fn parse(source: &str) -> Result<Program, String> {
    sga::parse_source(source).map_err(|e| e.describe())
}

fn dir_of(path: &str) -> String {
    match path.rfind('/') {
        Some(i) => path[..i].to_string(),
        None => String::new(),
    }
}

fn join(dir: &str, rel: &str) -> String {
    if dir.is_empty() {
        rel.to_string()
    } else {
        format!("{}/{}", dir, rel)
    }
}

/// Resolves the imports of the file `entry` among `files`; a key is the
/// path as written, and imports must stay in the entry file's directory.
fn resolve(files: &[(&str, &str)], entry: &str) -> Result<Program, ImportError> {
    let read = |path: &str| files.iter().find(|(p, _)| *p == path).map(|(_, s)| s.to_string());
    let program = parse(&read(entry).unwrap()).unwrap();
    let entry_dir = dir_of(entry);
    let mut resolver = Resolver::new(program, entry_dir.clone(), entry.to_string(), entry_dir);
    let mut action = resolver.advance();
    loop {
        action = match action {
            ResolveAction::Locate { dir, rel } => {
                let full = join(&dir, &rel);
                let dir = dir_of(&full);
                resolver.located(full.clone(), full, dir)
            }
            ResolveAction::Load { path } => {
                let outcome = match read(&path) {
                    None => LoadOutcome::Unreadable(ImportError(format!(
                        "файл не найден в in-memory loader'е: {}",
                        path
                    ))),
                    Some(source) => match parse(&source) {
                        Ok(p) => LoadOutcome::Parsed(p),
                        Err(m) => LoadOutcome::Unparsable(m),
                    },
                };
                resolver.loaded(outcome)
            }
            ResolveAction::Done(p) => return Ok(p),
            ResolveAction::Fail(e) => return Err(e),
        };
    }
}

fn count_fn_decls(program: &Program, name: &str) -> usize {
    program
        .iter()
        .filter(|s| matches!(s, Stmt::FnDecl { name: n, .. } if n == name))
        .count()
}

fn has_import(program: &Program) -> bool {
    program.iter().any(|s| matches!(s, Stmt::Import(_)))
}

#[test]
fn test_simple_import_inlines_function_from_other_file() {
    let entry_src = format!("{} \"lib.sga\";\n{}(helper());\n", kw("IMPORT"), kw("PRINT"));
    let lib_src = format!("{} helper() {{ {} 42; }}\n", kw("FN"), kw("RETURN"));
    let resolved = resolve(&[("entry.sga", &entry_src), ("lib.sga", &lib_src)], "entry.sga").unwrap();
    assert!(!has_import(&resolved));
    assert_eq!(count_fn_decls(&resolved, "helper"), 1);
}

#[test]
fn test_diamond_import_is_deduplicated_pragma_once_style() {
    let entry_src = format!("{i} \"a.sga\";\n{i} \"b.sga\";\n", i = kw("IMPORT"));
    let a_src = format!("{} \"common.sga\";\n", kw("IMPORT"));
    let b_src = format!("{} \"common.sga\";\n", kw("IMPORT"));
    let common_src = format!("{} shared() {{ {} 1; }}\n", kw("FN"), kw("RETURN"));
    let resolved = resolve(
        &[("entry.sga", &entry_src), ("a.sga", &a_src), ("b.sga", &b_src), ("common.sga", &common_src)],
        "entry.sga",
    )
    .unwrap();
    assert_eq!(count_fn_decls(&resolved, "shared"), 1);
}

#[test]
fn test_cyclic_import_is_rejected_with_explicit_error() {
    let a_src = format!("{} \"b.sga\";\n", kw("IMPORT"));
    let b_src = format!("{} \"a.sga\";\n", kw("IMPORT"));
    match resolve(&[("a.sga", &a_src), ("b.sga", &b_src)], "a.sga") {
        Err(ImportError(msg)) => {
            assert_eq!(msg, "циклический IMPORT обнаружен: a.sga -> b.sga -> a.sga")
        }
        Ok(_) => panic!("expected an import cycle error"),
    }
}

#[test]
fn test_self_import_is_rejected() {
    let a_src = format!("{} \"a.sga\";\n", kw("IMPORT"));
    match resolve(&[("a.sga", &a_src)], "a.sga") {
        Err(ImportError(msg)) => assert_eq!(msg, "циклический IMPORT обнаружен: a.sga -> a.sga"),
        Ok(_) => panic!("expected a self-import error"),
    }
}

#[test]
fn test_missing_import_file_gives_explicit_error_not_panic() {
    let entry_src = format!("{} \"does_not_exist.sga\";\n", kw("IMPORT"));
    match resolve(&[("entry.sga", &entry_src)], "entry.sga") {
        Err(ImportError(msg)) => {
            assert!(msg.contains("does_not_exist.sga") || msg.contains("не найден"))
        }
        Ok(_) => panic!("expected a missing-file error"),
    }
}

#[test]
fn test_absolute_path_import_is_rejected() {
    for (written, absolute) in [("/etc/secret.sga", "/etc/secret.sga"), ("C:\\\\secret.sga", "C:\\secret.sga")] {
        let entry_src = format!("{} \"{}\";\n", kw("IMPORT"), written);
        match resolve(&[("entry.sga", &entry_src)], "entry.sga") {
            Err(ImportError(msg)) => {
                assert!(msg.contains("абсолютным"), "{}", msg);
                assert_eq!(msg, format!("IMPORT с абсолютным путём запрещён: '{}'", absolute));
            }
            Ok(_) => panic!("expected an absolute path to be refused"),
        }
    }
}

#[test]
fn test_path_traversal_escaping_entry_root_is_rejected() {
    let secret_src = format!("{} TOKEN = \"kept inside\";\n", kw("LET"));
    let entry_src = format!("{} \"../outside/secret.sga\";\n", kw("IMPORT"));
    match resolve(
        &[("project/main.sga", &entry_src), ("outside/secret.sga", &secret_src)],
        "project/main.sga",
    ) {
        Err(ImportError(msg)) => {
            assert!(msg.contains("пределы"), "{}", msg);
            assert_eq!(
                msg,
                "IMPORT 'project/../outside/secret.sga' выходит за пределы каталога входного файла"
            );
        }
        Ok(_) => panic!("expected an import out of the entry directory to be refused"),
    }
}

#[test]
fn test_path_traversal_within_entry_root_still_works() {
    let shared_src = format!("{} shared_helper() {{ {} 100; }}\n", kw("FN"), kw("RETURN"));
    let inner_src = format!(
        "{} \"../shared.sga\";\n{} get_value() {{ {} shared_helper() + 1; }}\n",
        kw("IMPORT"),
        kw("FN"),
        kw("RETURN")
    );
    let entry_src = format!("{} \"sub/inner.sga\";\n{}(get_value());\n", kw("IMPORT"), kw("PRINT"));
    let resolved = resolve(
        &[
            ("project/main.sga", &entry_src),
            ("project/sub/inner.sga", &inner_src),
            ("project/sub/../shared.sga", &shared_src),
        ],
        "project/main.sga",
    );
    let resolved = resolved.unwrap();
    assert_eq!(count_fn_decls(&resolved, "shared_helper"), 1);
    assert_eq!(count_fn_decls(&resolved, "get_value"), 1);
}

#[test]
fn test_transitive_import_chain_is_resolved() {
    let entry_src = format!("{} \"mid.sga\";\n", kw("IMPORT"));
    let mid_src = format!("{} \"leaf.sga\";\n{} mid_fn() {{ {} 2; }}\n", kw("IMPORT"), kw("FN"), kw("RETURN"));
    let leaf_src = format!("{} leaf_fn() {{ {} 1; }}\n", kw("FN"), kw("RETURN"));
    let resolved = resolve(
        &[("entry.sga", &entry_src), ("mid.sga", &mid_src), ("leaf.sga", &leaf_src)],
        "entry.sga",
    )
    .unwrap();
    assert_eq!(count_fn_decls(&resolved, "mid_fn"), 1);
    assert_eq!(count_fn_decls(&resolved, "leaf_fn"), 1);
    assert!(!has_import(&resolved));
}

#[test]
fn test_resolved_program_preserves_non_import_statements_in_order() {
    let entry_src = format!("{l} x = 1;\n{} \"lib.sga\";\n{l} y = 2;\n", kw("IMPORT"), l = kw("LET"));
    let lib_src = format!("{} from_lib() {{ {} 0; }}\n", kw("FN"), kw("RETURN"));
    let resolved = resolve(&[("entry.sga", &entry_src), ("lib.sga", &lib_src)], "entry.sga").unwrap();
    assert_eq!(resolved.len(), 3);
    assert!(matches!(&resolved[0], Stmt::VarDecl { name, .. } if name == "x"));
    assert!(matches!(&resolved[1], Stmt::FnDecl { name, .. } if name == "from_lib"));
    assert!(matches!(&resolved[2], Stmt::VarDecl { name, .. } if name == "y"));
}

#[test]
fn test_nested_import_inside_block_is_rejected_by_parser() {
    let src = format!("{} f() {{ {} \"x.sga\"; }}", kw("FN"), kw("IMPORT"));
    assert!(parse(&src).is_err());
}

#[test]
fn test_imported_top_level_expr_stmt_is_preserved() {
    let entry_src = format!("{} \"lib.sga\";\n", kw("IMPORT"));
    let lib_src = format!("{}(1);\n", kw("PRINT"));
    let resolved = resolve(&[("entry.sga", &entry_src), ("lib.sga", &lib_src)], "entry.sga").unwrap();
    assert_eq!(resolved.len(), 1);
    match &resolved[0] {
        Stmt::Print(args) => assert!(matches!(args.first(), Some(Expr::Int(1)))),
        other => panic!("expected the imported PRINT, got {:?}", other),
    }
}

#[test]
fn resolver_unparsable_import_names_the_file() {
    let entry_src = format!("{} \"bad.sga\";\n", kw("IMPORT"));
    match resolve(&[("entry.sga", &entry_src), ("bad.sga", "@")], "entry.sga") {
        Err(ImportError(msg)) => {
            assert!(msg.starts_with("ошибка разбора импортируемого файла 'bad.sga': "), "{}", msg)
        }
        Ok(_) => panic!("expected a parse error of the imported file"),
    }
}

#[test]
fn resolver_program_without_imports_is_unchanged() {
    let entry_src = format!("{} x = 1;\n{}(x);\n", kw("LET"), kw("PRINT"));
    let resolved = resolve(&[("entry.sga", &entry_src)], "entry.sga").unwrap();
    assert_eq!(resolved, parse(&entry_src).unwrap());
}

#[test]
fn resolver_import_error_is_described() {
    assert_eq!(ImportError("x".to_string()).describe(), "ошибка импорта: x");
}
