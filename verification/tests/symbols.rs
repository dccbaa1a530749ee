use zenlang::ast::Type;
use zenlang::lsp::type_display;
use zenlang::parser::{compound_to_binop, Precedence};
use zenlang::ast::BinOp;
use zenlang::symbol::{SymKind, SymbolTable};
use zenlang::token::TokenKind;
use zenlang::ast::StructField;
use zenlang::lsp::symkind_display;
use zenlang::symbol::{EnumDef, FnSignature, StructDef, TraitDef};
use zenlang::lsp::{completion, CompletionKind};
use zenlang::lsp::word_at;
use zenlang::lsp::find_symbol;
use zenlang::lsp::hover_text;
use zenlang::compiler::binary_opcode;
use zenlang::ir::Opcode;

fn is_var_of(kind: &SymKind, t: &Type) -> bool {
    match kind {
        SymKind::Variable(v) => v == t,
        _ => false,
    }
}

#[test]
fn define_and_lookup() {
    let mut t = SymbolTable::new();
    assert_eq!(t.define("x", SymKind::Variable(Type::I64)), Ok(0));
    let e = t.lookup("x").unwrap();
    assert_eq!(e.id, 0);
    assert!(is_var_of(&e.kind, &Type::I64));
    assert!(t.lookup("y").is_none());
    assert_eq!(t.symbols.len(), 1);
}

#[test]
fn duplicate_definition_is_refused() {
    let mut t = SymbolTable::new();
    t.define("x", SymKind::Variable(Type::I64)).unwrap();
    assert_eq!(t.define("x", SymKind::Variable(Type::Str)), Err("duplicate definition of 'x'".to_string()));
    assert!(is_var_of(&t.lookup("x").unwrap().kind, &Type::I64));
}

#[test]
fn inner_scope_shadows_and_exit_restores() {
    let mut t = SymbolTable::new();
    t.define("x", SymKind::Variable(Type::I64)).unwrap();
    t.enter_scope();
    assert_eq!(t.define("x", SymKind::Variable(Type::Str)), Ok(1));
    assert!(is_var_of(&t.lookup("x").unwrap().kind, &Type::Str));
    assert!(t.lookup_global("x").is_some());
    t.exit_scope();
    assert_eq!(t.current_scope, 0);
    assert!(is_var_of(&t.lookup("x").unwrap().kind, &Type::I64));
    assert!(t.lookup_in_scope(1, "x").is_some());
    t.exit_scope();
    assert_eq!(t.current_scope, 0);
}

#[test]
fn update_and_remove() {
    let mut t = SymbolTable::new();
    t.define("v", SymKind::Variable(Type::Unit)).unwrap();
    t.define("f", SymKind::TypeParam("T".to_string())).unwrap();
    t.enter_scope();
    t.update_variable_type("v", Type::Bool);
    assert!(is_var_of(&t.lookup("v").unwrap().kind, &Type::Bool));
    t.update_variable_type("f", Type::Bool);
    assert!(matches!(t.lookup("f").unwrap().kind, SymKind::TypeParam(_)));
    t.exit_scope();
    assert!(t.remove_from_current_scope("v").is_some());
    assert!(t.lookup("v").is_none());
    assert!(t.remove_from_current_scope("v").is_none());
    assert_eq!(t.globals().len(), 1);
}

#[test]
fn insert_replaces() {
    let mut t = SymbolTable::new();
    assert_eq!(t.insert_into_current_scope("a", SymKind::Module(3)), 0);
    assert_eq!(t.insert_into_current_scope("a", SymKind::Module(4)), 1);
    let e = t.lookup("a").unwrap();
    assert_eq!(e.id, 1);
    assert!(matches!(e.kind, SymKind::Module(4)));
    assert_eq!(t.globals().len(), 1);
}

#[test]
fn type_texts() {
    assert_eq!(type_display(&Type::I64), "int");
    assert_eq!(type_display(&Type::Array(Box::new(Type::F64))), "[float]");
    let f = Type::Fn { params: vec![Type::Str, Type::Named("Point".to_string())], ret: Box::new(Type::Unit) };
    assert_eq!(type_display(&f), "fn(str, Point) -> ()");
    let r = Type::Result(Box::new(Type::Option(Box::new(Type::Bool))), Box::new(Type::Generic("E".to_string())));
    assert_eq!(type_display(&r), "Result<Option<bool>, E>");
    assert_eq!(type_display(&Type::Fn { params: vec![], ret: Box::new(Type::Any) }), "fn() -> any");
}

#[test]
fn precedence_table() {
    assert_eq!(Precedence::of(&TokenKind::Plus), Precedence::Term);
    assert_eq!(Precedence::of(&TokenKind::Caret), Precedence::Term);
    assert_eq!(Precedence::of(&TokenKind::DotDot), Precedence::Assign);
    assert_eq!(Precedence::of(&TokenKind::Question), Precedence::Call);
    assert_eq!(Precedence::of(&TokenKind::Semi), Precedence::Lowest);
    assert_eq!(Precedence::Factor.next(), Precedence::Unary);
    assert_eq!(Precedence::Primary.next(), Precedence::Primary);
    assert!(Precedence::Term < Precedence::Factor);
    assert_eq!(compound_to_binop(&TokenKind::PlusEq), BinOp::Add);
    assert_eq!(compound_to_binop(&TokenKind::AndEq), BinOp::And);
    assert_eq!(compound_to_binop(&TokenKind::ShrEq), BinOp::Shr);
}

#[test]
fn symbol_display_texts() {
    let sig = FnSignature {
        name: "add".to_string(),
        type_params: vec![],
        params: vec![("a".to_string(), Type::I64), ("b".to_string(), Type::I64)],
        return_type: Some(Type::I64),
    };
    assert_eq!(symkind_display(&SymKind::Function(sig.clone())), "fn(a: int, b: int) -> int");
    let no_ret = FnSignature { name: "g".to_string(), type_params: vec![], params: vec![], return_type: None };
    assert_eq!(symkind_display(&SymKind::Function(no_ret.clone())), "fn() -> ?");
    let st = StructDef {
        name: "P".to_string(),
        type_params: vec![],
        fields: vec![
            StructField { name: "x".to_string(), type_ann: Type::F64 },
            StructField { name: "y".to_string(), type_ann: Type::F64 },
        ],
    };
    assert_eq!(symkind_display(&SymKind::Struct(st)), "struct { x: float, y: float }");
    let en = EnumDef {
        name: "E".to_string(),
        type_params: vec![],
        variants: vec![("A".to_string(), vec![]), ("B".to_string(), vec![Type::I64])],
    };
    assert_eq!(symkind_display(&SymKind::Enum(en)), "enum { A, B }");
    let tr = TraitDef { name: "T".to_string(), type_params: vec![], method_sigs: vec![sig, no_ret] };
    assert_eq!(symkind_display(&SymKind::Trait(tr)), "trait { add, g }");
    assert_eq!(symkind_display(&SymKind::Module(2)), "module");
    assert_eq!(symkind_display(&SymKind::TypeParam("T".to_string())), "type param 'T'");
    let ctor = SymKind::EnumConstructor {
        enum_name: "E".to_string(),
        variant_name: "B".to_string(),
        tag: 1,
        fields: vec![Type::I64, Type::Str],
    };
    assert_eq!(symkind_display(&ctor), "B(int, str) (enum E)");
    let unit_ctor = SymKind::EnumConstructor {
        enum_name: "E".to_string(),
        variant_name: "A".to_string(),
        tag: 0,
        fields: vec![],
    };
    assert_eq!(symkind_display(&unit_ctor), "A (enum E)");
}

#[test]
fn completion_lists_keywords_then_symbols() {
    let mut t = SymbolTable::new();
    t.define("count", SymKind::Variable(Type::I64)).unwrap();
    t.define("T", SymKind::TypeParam("T".to_string())).unwrap();
    let items = completion(&t);
    assert_eq!(items.len(), 21);
    assert_eq!(items[0].label, "fn");
    assert_eq!(items[0].kind, CompletionKind::Keyword);
    assert!(items[0].detail.is_none());
    assert_eq!(items[18].label, "false");
    assert_eq!(items[19].label, "count");
    assert_eq!(items[19].kind, CompletionKind::Variable);
    assert_eq!(items[19].detail, Some("int".to_string()));
    assert_eq!(items[20].kind, CompletionKind::TypeParameter);
    assert_eq!(items[20].detail, Some("type param 'T'".to_string()));
}

#[test]
fn word_under_offset() {
    let src = "let foo_1 = bar;";
    assert_eq!(word_at(src, 4), Some((4, 9)));
    assert_eq!(word_at(src, 8), Some((4, 9)));
    assert_eq!(word_at(src, 9), None);
    assert_eq!(word_at(src, 12), Some((12, 15)));
    assert_eq!(word_at(src, 16), None);
    assert_eq!(word_at(src, 100), None);
}

#[test]
fn find_symbol_takes_latest() {
    let mut t = SymbolTable::new();
    t.define("x", SymKind::Variable(Type::I64)).unwrap();
    t.enter_scope();
    t.define("x", SymKind::Variable(Type::Str)).unwrap();
    t.exit_scope();
    assert!(is_var_of(find_symbol(&t, "x").unwrap(), &Type::Str));
    assert!(find_symbol(&t, "y").is_none());
}

#[test]
fn hover_texts() {
    let k = SymKind::Variable(Type::Bool);
    assert_eq!(hover_text("flag", &k, None), "`flag`: bool");
    assert_eq!(hover_text("flag", &k, Some("Set once.".to_string())), "Set once.\n\n`flag`: bool");
}

#[test]
fn binary_opcodes() {
    assert_eq!(binary_opcode(BinOp::Add), Opcode::Add);
    assert_eq!(binary_opcode(BinOp::Le), Opcode::Le);
    assert_eq!(binary_opcode(BinOp::Or), Opcode::Or);
    assert_eq!(binary_opcode(BinOp::Shr), Opcode::Shr);
    assert_eq!(binary_opcode(BinOp::BitXor), Opcode::BitXor);
}
