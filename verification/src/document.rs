//! An open document as the language server sees it: the diagnostics its
//! errors give, and what it holds once it compiles.
use vstd::prelude::*;
use vstd::utf8::encode_utf8;
use crate::ast::{Program, Stmt};
use crate::error::Error;
use crate::lexer::Lexer;
use crate::lexer_spec::{error_count, lex_from, lexable_from};
use crate::lsp::{chars_before, comment_before, comments_back, find_symbol, hover_text, join_lines, last_symbol,
    pos_at, position_to_offset, span_to_range, symkind_text, word_at, word_byte, word_end, word_start, Position, Range};
use crate::parser::{lemma_lexed_parser_input, Parser};
use crate::span::{Span, Spanned};
use crate::symbol::SymbolTable;
use crate::text::{byte_offset, chars_of, lemma_byte_offset_full, lemma_byte_offset_mono, lemma_byte_offset_step,
    string_push, text_fits, utf8_width};
use crate::typeck::TypeMap;
use crate::compiler::Constant;
use crate::ir::BytecodeFn;

verus! {

/// An error diagnostic: where it is, what it says, and whether it names the
/// language as its source.
#[derive(Debug, Clone)]
pub struct Diagnostic {
    pub range: Range,
    pub message: String,
    pub from_zenlang: bool,
}

/// What a diagnostic says, as plain values: the span it covers (none for an
/// error without a location) and the message.
pub type DiagSpec = (Option<Span>, Seq<char>);

/// The diagnostics an error gives, in order: one for an error with a
/// location, one at the start of the text for a runtime or script error, and
/// those of each error that a multiple error collects.
pub open spec fn diagnostics_of(e: Error) -> Seq<DiagSpec>
    decreases e, 1nat,
{
    match e {
        Error::Parse { location, msg } => seq![(Some(location.span), msg@)],
        Error::TypeError { location, msg } => seq![(Some(location.span), msg@)],
        Error::Resolve { location, msg } => seq![(Some(location.span), msg@)],
        Error::Compile { location, msg } => seq![(Some(location.span), msg@)],
        Error::Runtime { msg, .. } => seq![(None, msg@)],
        Error::Script { msg } => seq![(None, msg@)],
        Error::ParseMultiple { errors } => diagnostics_of_all(errors@),
        Error::CompileMultiple { errors } => diagnostics_of_all(errors@),
    }
}

/// The diagnostics of each error in turn.
pub open spec fn diagnostics_of_all(es: Seq<Error>) -> Seq<DiagSpec>
    decreases es, 0nat,
{
    if es.len() == 0 {
        Seq::empty()
    } else {
        diagnostics_of_all(es.drop_last()) + diagnostics_of(es.last())
    }
}

/// The position at which byte `offset` of `source` falls.
pub open spec fn position_of(source: Seq<char>, offset: int) -> (nat, nat) {
    pos_at(source, chars_before(source, offset))
}

/// `d` is the diagnostic `spec` describes in `source`.
pub open spec fn diagnostic_is(d: Diagnostic, spec: DiagSpec, source: Seq<char>) -> bool {
    &&& d.message@ == spec.1
    &&& match spec.0 {
        Some(span) => {
            &&& d.from_zenlang
            &&& (d.range.start.line as nat, d.range.start.character as nat) == position_of(source, span.0 as int)
            &&& (d.range.end.line as nat, d.range.end.character as nat) == position_of(source, span.1 as int)
        },
        None => {
            &&& !d.from_zenlang
            &&& d.range == Range { start: Position { line: 0, character: 0 }, end: Position { line: 0, character: 0 } }
        },
    }
}

/// Each diagnostic is the one the spec at its place describes.
pub open spec fn diagnostics_are(ds: Seq<Diagnostic>, specs: Seq<DiagSpec>, source: Seq<char>) -> bool {
    &&& ds.len() == specs.len()
    &&& forall|i: int| 0 <= i < ds.len() ==> #[trigger] diagnostic_is(ds[i], specs[i], source)
}

/// The text is small enough for positions: its bytes fit a `usize` and its
/// characters a `u32`.
pub open spec fn positions_fit(source: Seq<char>) -> bool {
    text_fits(source) && source.len() <= u32::MAX
}

/// The diagnostics an error gives in `source`.
pub fn error_to_diagnostics(source: &str, err: &Error) -> (ds: Vec<Diagnostic>)
    requires
        positions_fit(source@),
    ensures
        diagnostics_are(ds@, diagnostics_of(*err), source@),
    decreases err, 1nat,
{
    let zero = Position { line: 0, character: 0 };
    let mut out: Vec<Diagnostic> = Vec::new();
    match err {
        Error::Parse { location, msg } | Error::TypeError { location, msg } | Error::Resolve { location, msg }
        | Error::Compile { location, msg } => {
            let range = span_to_range(source, location.span);
            out.push(Diagnostic { range, message: msg.clone(), from_zenlang: true });
        },
        Error::Runtime { msg, .. } | Error::Script { msg } => {
            out.push(Diagnostic { range: Range { start: zero, end: zero }, message: msg.clone(), from_zenlang: false });
        },
        Error::ParseMultiple { errors } | Error::CompileMultiple { errors } => {
            return errors_to_diagnostics(source, errors);
        },
    }
    proof {
        assert(diagnostic_is(out@[0], diagnostics_of(*err)[0], source@));
    }
    out
}

/// The diagnostics of each error in turn.
fn errors_to_diagnostics(source: &str, errors: &Vec<Error>) -> (ds: Vec<Diagnostic>)
    requires
        positions_fit(source@),
    ensures
        diagnostics_are(ds@, diagnostics_of_all(errors@), source@),
    decreases errors, 0nat,
{
    let mut out: Vec<Diagnostic> = Vec::new();
    let mut k: usize = 0;
    while k < errors.len()
        invariant
            k <= errors@.len(),
            positions_fit(source@),
            diagnostics_are(out@, diagnostics_of_all(errors@.subrange(0, k as int)), source@),
        decreases errors@.len() - k,
    {
        proof {
            assert(decreases_to!(errors => errors@[k as int]));
            assert(errors@.subrange(0, k + 1).drop_last() =~= errors@.subrange(0, k as int));
        }
        let mut more = error_to_diagnostics(source, &errors[k]);
        let ghost before = out@;
        let ghost added = more@;
        out.append(&mut more);
        proof {
            let specs = diagnostics_of_all(errors@.subrange(0, k + 1));
            let prev = diagnostics_of_all(errors@.subrange(0, k as int));
            let mine = diagnostics_of(errors@[k as int]);
            assert(specs == prev + mine);
            assert forall|i: int| 0 <= i < out@.len() implies #[trigger] diagnostic_is(out@[i], specs[i], source@) by {
                if i < before.len() {
                    assert(diagnostic_is(before[i], prev[i], source@));
                } else {
                    assert(out@[i] == added[i - before.len()]);
                    assert(diagnostic_is(added[i - before.len()], mine[i - before.len()], source@));
                }
            }
        }
        k = k + 1;
    }
    proof {
        assert(errors@.subrange(0, errors@.len() as int) =~= errors@);
    }
    out
}


/// A document that compiled: its text, its syntax tree, its symbols and the
/// types of its expressions.
pub struct DocumentState {
    pub source: String,
    pub program: Program,
    pub symbols: SymbolTable,
    pub types: TypeMap,
}

/// The kinds of the tokens a text lexes to, comments left out.
pub open spec fn source_kinds(s: Seq<char>) -> Seq<crate::token::TokenKindView> {
    crate::lexer_spec::without_comments(lex_from(s, 0)).map_values(|st: crate::lexer_spec::SpecToken| st.kind)
}

/// An expression every stage accepts: built from literals with operators
/// (and field and index reads), its operands of matching types.
pub open spec fn simple_expr(e: crate::ast::Expr) -> bool {
    crate::typeck::simple_type(e) is Some && crate::compiler::expr_clean(e)
}

/// A statement that is such an expression.
pub open spec fn simple_stmt(s: Stmt) -> bool {
    match s {
        Stmt::Expr(e) => simple_expr(e),
        _ => false,
    }
}

/// Every statement is such an expression statement.
pub open spec fn simple_program(stmts: Seq<Spanned<Stmt>>) -> bool {
    forall|k: int| 0 <= k < stmts.len() ==> simple_stmt(#[trigger] stmts[k].node)
}

/// Every expression of form `m` is such an expression.
pub open spec fn simple_shape(m: crate::parser::ExprShape) -> bool {
    forall|e: crate::ast::Expr| #[trigger] crate::parser::shape_of(e) == m ==> simple_expr(e)
}

/// A text that lexes without error to expression statements of literals,
/// prefix and infix operators and parentheses (see `pratt_program`), each of
/// which every later stage accepts.
pub open spec fn simple_source(s: Seq<char>) -> bool {
    &&& error_count(lex_from(s, 0)) == 0
    &&& crate::parser::pratt_program(source_kinds(s), 0) matches Some(es)
        && forall|k: int| 0 <= k < es.len() ==> simple_shape(#[trigger] es[k])
}

/// Lex and parse a script.
pub fn parse_document(source: &str) -> (r: Result<Program, Error>)
    requires
        text_fits(source@),
        lexable_from(source@, 0),
        source@.len() <= usize::MAX / 4,
    ensures
        match r {
            Ok(_) => error_count(lex_from(source@, 0)) == 0,
            Err(e) => e is ParseMultiple,
        },
        error_count(lex_from(source@, 0)) > 0 ==> (r matches Err(Error::ParseMultiple { errors })
            && errors@.len() == error_count(lex_from(source@, 0))),
        crate::parser::pratt_program(source_kinds(source@), 0) matches Some(es) ==> (error_count(lex_from(source@, 0)) == 0
            ==> (r matches Ok(prog) && prog.stmts@.len() == es.len()
            && forall|k: int| 0 <= k < es.len() ==> crate::parser::expr_stmt_shaped((#[trigger] prog.stmts@[k]).node, es[k]))),
{
    let tokens = match Lexer::new(source).tokenize() {
        Ok(t) => t,
        Err(e) => return Err(e),
    };
    proof {
        lemma_lexed_parser_input(source@, tokens@);
        let sts = crate::lexer_spec::without_comments(lex_from(source@, 0));
        assert(crate::parser::kinds_of(tokens@) =~= source_kinds(source@)) by {
            assert forall|k: int| 0 <= k < tokens@.len() implies crate::parser::kinds_of(tokens@)[k] == source_kinds(source@)[k] by {
                assert(crate::lexer::token_matches(tokens@[k], sts[k], source@));
            }
        }
    }
    Parser::new(source, tokens.as_slice()).parse()
}

/// Run the stages after parsing on a program of `source`: name resolution
/// (the native functions predeclared), type checking and compilation.
/// Returns the checked document with its bytecode and global names, or the
/// error of the first stage that fails.
pub fn check_program(program: Program, source: &str) -> (r: Result<(DocumentState, Vec<BytecodeFn<Constant>>, Vec<String>), Error>)
    requires
        text_fits(source@),
    ensures
        match r {
            Ok((st, fns, _)) => {
                &&& st.source@ == source@
                &&& st.symbols.wf()
                &&& fns@.len() >= 1
                &&& fns@[0].name@ == "__main__"@
            },
            Err(e) => e is ParseMultiple || e is CompileMultiple,
        },
        r matches Ok((_, fns, _)) ==> fns@.len() >= 1 + crate::compiler::fns_of(program.stmts@).len()
            && crate::compiler::fn_names(fns@.subrange(1, 1 + crate::compiler::fns_of(program.stmts@).len() as int))
            == crate::compiler::fns_of(program.stmts@)
            && crate::compiler::fn_arities(fns@.subrange(1, 1 + crate::compiler::fns_of(program.stmts@).len() as int))
            == crate::compiler::arities_of(program.stmts@),
        r matches Err(e) ==> match e {
            Error::ParseMultiple { errors } => errors@.len() > 0 && ((forall|i: int| 0 <= i < errors@.len()
                ==> (#[trigger] errors@[i]) is Resolve) || (forall|i: int| 0 <= i < errors@.len()
                ==> (#[trigger] errors@[i]) is TypeError)),
            Error::CompileMultiple { errors } => errors@.len() > 0 && crate::compiler::all_compile(errors@),
            _ => false,
        },
        simple_program(program.stmts@) ==> r is Ok,
        crate::typeck::operator_program(program.stmts@) ==> (r is Ok <==> crate::typeck::program_faults(program.stmts@) == 0),
{
    let ghost given = program;
    let mut program = program;
    proof {
        if simple_program(given.stmts@) {
            assert forall|k: int| 0 <= k < given.stmts@.len() implies crate::resolver::name_free_stmt(#[trigger] given.stmts@[k].node) by {
                assert(simple_stmt(given.stmts@[k].node));
            }
            assert(crate::resolver::name_free_program(given.stmts@));
        }
        if crate::typeck::operator_program(given.stmts@) {
            assert forall|k: int| 0 <= k < given.stmts@.len() implies crate::resolver::name_free_stmt(#[trigger] given.stmts@[k].node)
                && crate::compiler::stmt_clean(given.stmts@[k].node) by {
                assert(crate::typeck::operator_stmt(given.stmts@[k].node));
                if let Stmt::Expr(e) = given.stmts@[k].node {
                    lemma_operator_clean(e);
                }
            }
            assert(crate::resolver::name_free_program(given.stmts@));
            assert(crate::compiler::program_clean(given.stmts@));
        }
    }
    let native_names = crate::stdlib::native_names();
    let mut symbols = match crate::resolver::resolve_with_natives(&mut program, native_names.as_slice()) {
        Ok(s) => s,
        Err(e) => return Err(e),
    };
    proof {
        if simple_program(given.stmts@) {
            assert forall|k: int| 0 <= k < program.stmts@.len() implies crate::typeck::stmt_simple(#[trigger] program.stmts@[k].node) by {
                assert(simple_stmt(program.stmts@[k].node));
            }
            assert forall|k: int| 0 <= k < program.stmts@.len() implies crate::compiler::stmt_clean(#[trigger] program.stmts@[k].node) by {
                assert(simple_stmt(program.stmts@[k].node));
            }
            assert(crate::compiler::program_clean(program.stmts@));
        }
    }
    let types = match crate::typeck::check(&program, &mut symbols) {
        Ok(t) => t,
        Err(e) => return Err(e),
    };
    let (fns, globals) = match crate::compiler::compile(&program, &types, &symbols, native_names.as_slice(), source) {
        Ok(c) => c,
        Err(e) => return Err(e),
    };
    Ok((DocumentState { source: source.to_string(), program, symbols, types }, fns, globals))
}

/// An expression of literals and operators compiles without error.
proof fn lemma_operator_clean(e: crate::ast::Expr)
    requires
        crate::typeck::operator_expr(e),
    ensures
        crate::compiler::expr_clean(e),
    decreases e,
{
    match e {
        crate::ast::Expr::Unary { expr: inner, .. } => lemma_operator_clean(*inner),
        crate::ast::Expr::Binary { lhs, rhs, .. } => {
            lemma_operator_clean(*lhs);
            lemma_operator_clean(*rhs);
        },
        _ => {},
    }
}

/// Run every stage on a script: lexing, parsing, name resolution, type
/// checking and compilation (see `parse_document` and `check_program`).
pub fn compile_document(source: &str) -> (r: Result<(DocumentState, Vec<BytecodeFn<Constant>>, Vec<String>), Error>)
    requires
        text_fits(source@),
        lexable_from(source@, 0),
        source@.len() <= usize::MAX / 4,
    ensures
        match r {
            Ok((st, fns, _)) => {
                &&& st.source@ == source@
                &&& st.symbols.wf()
                &&& fns@.len() >= 1
                &&& fns@[0].name@ == "__main__"@
            },
            Err(e) => e is ParseMultiple || e is CompileMultiple,
        },
        simple_source(source@) ==> r is Ok,
{
    match parse_document(source) {
        Ok(program) => {
            proof {
                if simple_source(source@) {
                    let es = crate::parser::pratt_program(source_kinds(source@), 0)->0;
                    assert forall|k: int| 0 <= k < program.stmts@.len() implies simple_stmt(#[trigger] program.stmts@[k].node) by {
                        assert(simple_shape(es[k]));
                        if let Stmt::Expr(x) = program.stmts@[k].node {
                            assert(crate::parser::shape_of(x) == es[k]);
                            assert(simple_expr(x));
                        }
                    }
                }
            }
            check_program(program, source)
        },
        Err(e) => Err(e),
    }
}

/// Compile a document through every stage; the first stage that fails gives
/// the diagnostics of its error.
pub fn compile_source(source: &str) -> (r: Result<DocumentState, Vec<Diagnostic>>)
    requires
        positions_fit(source@),
        lexable_from(source@, 0),
        source@.len() <= usize::MAX / 4,
    ensures
        match r {
            Ok(st) => st.source@ == source@ && st.symbols.wf(),
            Err(ds) => exists|e: Error| (e is ParseMultiple || e is CompileMultiple)
                && diagnostics_are(ds@, #[trigger] diagnostics_of(e), source@),
        },
        simple_source(source@) ==> r is Ok,
{
    match compile_document(source) {
        Ok((st, _, _)) => Ok(st),
        Err(e) => {
            let ds = error_to_diagnostics(source, &e);
            proof {
                assert(diagnostics_are(ds@, diagnostics_of(e), source@));
            }
            Err(ds)
        },
    }
}

/// What can be kept of a document that did not compile: its text, its
/// syntax tree when it lexes and parses (else an empty program), the symbols
/// of resolving that tree (a fresh table when resolution fails) and the
/// types checked with them (none when checking fails).
pub fn salvage_state(source: &str) -> (st: DocumentState)
    requires
        positions_fit(source@),
        lexable_from(source@, 0),
        source@.len() <= usize::MAX / 4,
    ensures
        st.source@ == source@,
        st.symbols.wf(),
        error_count(lex_from(source@, 0)) > 0 ==> st.program.stmts@.len() == 0,
        crate::parser::pratt_program(source_kinds(source@), 0) matches Some(es) ==> (error_count(lex_from(source@, 0)) == 0
            ==> (st.program.stmts@.len() == es.len()
            && forall|k: int| 0 <= k < es.len() ==> crate::parser::expr_stmt_shaped((#[trigger] st.program.stmts@[k]).node, es[k]))),
{
    match parse_document(source) {
        Ok(p) => {
            let mut program = p;
            let native_names = crate::stdlib::native_names();
            let mut symbols = match crate::resolver::resolve_with_natives(&mut program, native_names.as_slice()) {
                Ok(t) => t,
                Err(_) => SymbolTable::new(),
            };
            let types = match crate::typeck::check(&program, &mut symbols) {
                Ok(m) => m,
                Err(_) => TypeMap::new(),
            };
            DocumentState { source: source.to_string(), program, symbols, types }
        },
        Err(_) => DocumentState {
            source: source.to_string(),
            program: Program::new(),
            symbols: SymbolTable::new(),
            types: TypeMap::new(),
        },
    }
}

/// Byte `offset` of `s` is where a character starts, or the end.
pub open spec fn at_boundary(s: Seq<char>, offset: int) -> bool {
    exists|m: int| 0 <= m <= s.len() && byte_offset(s, m) == offset
}

/// Whether byte `offset` of `source` is where a character starts, or the end.
pub fn char_boundary(source: &str, offset: usize) -> (b: bool)
    requires
        text_fits(source@),
    ensures
        b == at_boundary(source@, offset as int),
{
    let chars = chars_of(source);
    let ghost s = source@;
    let mut pos: usize = 0;
    let mut k: usize = 0;
    proof {
        lemma_byte_offset_full(s);
    }
    while k < chars.len() && pos < offset
        invariant
            chars@ == s,
            text_fits(s),
            k <= s.len(),
            pos == byte_offset(s, k as int),
            forall|j: int| 0 <= j < k ==> byte_offset(s, j) < offset,
        decreases s.len() - k,
    {
        proof {
            lemma_byte_offset_step(s, k as int);
            lemma_byte_offset_mono(s, k as int + 1, s.len() as int);
            lemma_byte_offset_full(s);
        }
        pos = pos + utf8_width(chars[k]);
        k = k + 1;
    }
    proof {
        if at_boundary(s, offset as int) {
            let m = choose|m: int| 0 <= m <= s.len() && byte_offset(s, m) == offset;
            if m < k {
                assert(byte_offset(s, m) < offset);
            } else if m > k {
                lemma_byte_offset_mono(s, k as int, m);
                if pos == offset {
                } else {
                    // the walk stopped at the end
                    assert(k == s.len());
                }
            }
        }
    }
    pos == offset
}

/// The top-level statement that declares `name` as a function, struct, enum,
/// impl'd type or trait: the first such.
pub open spec fn declares(s: Stmt, name: Seq<char>) -> bool {
    match s {
        Stmt::Fn { name: n, .. } => n@ == name,
        Stmt::Struct { name: n, .. } => n@ == name,
        Stmt::Enum { name: n, .. } => n@ == name,
        Stmt::Impl { self_type, .. } => self_type@ == name,
        Stmt::Trait { name: n, .. } => n@ == name,
        _ => false,
    }
}

/// The span of the first statement of `stmts` that declares `name`.
pub open spec fn declaring_span(stmts: Seq<Spanned<Stmt>>, name: Seq<char>) -> Option<Span>
    decreases stmts.len(),
{
    if stmts.len() == 0 {
        None
    } else if declares(stmts[0].node, name) {
        Some(stmts[0].span)
    } else {
        declaring_span(stmts.drop_first(), name)
    }
}

fn declaring_stmt_span(stmts: &Vec<Spanned<Stmt>>, name: &String) -> (r: Option<Span>)
    ensures
        r == declaring_span(stmts@, name@),
{
    let mut k: usize = 0;
    assert(stmts@.skip(0) =~= stmts@);
    while k < stmts.len()
        invariant
            k <= stmts@.len(),
            declaring_span(stmts@, name@) == declaring_span(stmts@.skip(k as int), name@),
        decreases stmts@.len() - k,
    {
        let ghost rest = stmts@.skip(k as int);
        assert(rest[0] == stmts@[k as int]);
        assert(rest.drop_first() =~= stmts@.skip(k + 1));
        let found = match &stmts[k].node {
            Stmt::Fn { name: n, .. } | Stmt::Struct { name: n, .. } | Stmt::Enum { name: n, .. }
            | Stmt::Trait { name: n, .. } => *n == *name,
            Stmt::Impl { self_type, .. } => *self_type == *name,
            _ => false,
        };
        if found {
            return Some(stmts[k].span);
        }
        k = k + 1;
    }
    assert(stmts@.skip(k as int).len() == 0);
    None
}

/// The characters of ASCII bytes.
pub open spec fn ascii_text(b: Seq<u8>) -> Seq<char> {
    b.map_values(|x: u8| x as char)
}

/// The identifier of bytes `[start, end)` of `source`.
pub fn word_text(source: &str, start: usize, end: usize) -> (w: String)
    requires
        start <= end <= encode_utf8(source@).len(),
    ensures
        w@ == ascii_text(encode_utf8(source@).subrange(start as int, end as int)),
{
    let bytes = source.as_bytes();
    let mut w = String::new();
    let mut i = start;
    while i < end
        invariant
            start <= i <= end <= bytes@.len(),
            bytes@ == encode_utf8(source@),
            w@ == ascii_text(bytes@.subrange(start as int, i as int)),
        decreases end - i,
    {
        string_push(&mut w, bytes[i] as char);
        i = i + 1;
        assert(ascii_text(bytes@.subrange(start as int, i as int)) =~= ascii_text(bytes@.subrange(start as int, i - 1)).push(bytes@[i - 1] as char));
    }
    w
}

/// The identifier under byte `offset` of `s`, if a word byte is there.
pub open spec fn word_under(s: Seq<char>, offset: int) -> Option<Seq<char>> {
    let b = encode_utf8(s);
    if 0 <= offset < b.len() && word_byte(b[offset]) {
        Some(ascii_text(b.subrange(word_start(b, offset), word_end(b, offset + 1))))
    } else {
        None
    }
}

/// The comment shown above a hover: that before the statement declaring
/// `name`, when it starts at a character of the text.
pub open spec fn hover_comment(source: Seq<char>, stmts: Seq<Spanned<Stmt>>, name: Seq<char>) -> Option<Seq<char>> {
    match declaring_span(stmts, name) {
        Some(span) => if at_boundary(source, span.0 as int) {
            let cs = comments_back(source, chars_before(source, span.0 as int));
            if cs.len() > 0 { Some(join_lines(cs)) } else { None }
        } else {
            None
        },
        None => None,
    }
}

/// The hover text at byte `offset`: for the identifier there that names a
/// symbol, the comment above its declaration (if any), then the name and
/// what it stands for.
pub open spec fn hover_spec(st: DocumentState, offset: int) -> Option<Seq<char>> {
    match word_under(st.source@, offset) {
        Some(name) => match last_symbol(st.symbols.symbols@, name) {
            Some(kind) => Some((match hover_comment(st.source@, st.program.stmts@, name) {
                Some(c) => c + "\n\n"@,
                None => Seq::<char>::empty(),
            }) + "`"@ + name + "`: "@ + symkind_text(kind)),
            None => None,
        },
        None => None,
    }
}

/// The hover text at byte `offset` of a compiled document.
pub fn hover_at(st: &DocumentState, offset: usize) -> (r: Option<String>)
    requires
        positions_fit(st.source@),
    ensures
        match r {
            Some(t) => hover_spec(*st, offset as int) == Some(t@),
            None => hover_spec(*st, offset as int) is None,
        },
{
    let (start, end) = match word_at(st.source.as_str(), offset) {
        Some(w) => w,
        None => return None,
    };
    proof {
        let b = encode_utf8(st.source@);
        lemma_word_bounds(b, offset as int);
    }
    let name = word_text(st.source.as_str(), start, end);
    let kind = match find_symbol(&st.symbols, name.as_str()) {
        Some(k) => k,
        None => return None,
    };
    let comment = match declaring_stmt_span(&st.program.stmts, &name) {
        Some(span) => {
            if char_boundary(st.source.as_str(), span.0) {
                comment_before(st.source.as_str(), span.0)
            } else {
                None
            }
        },
        None => None,
    };
    Some(hover_text(name.as_str(), kind, comment))
}

pub proof fn lemma_word_bounds(b: Seq<u8>, offset: int)
    requires
        0 <= offset < b.len(),
    ensures
        0 <= word_start(b, offset) <= offset,
        offset + 1 <= word_end(b, offset + 1) <= b.len(),
{
    lemma_word_start_bound(b, offset);
    lemma_word_end_bound(b, offset + 1);
}

proof fn lemma_word_start_bound(b: Seq<u8>, i: int)
    requires
        0 <= i,
    ensures
        0 <= word_start(b, i) <= i,
    decreases i,
{
    if i > 0 && word_byte(b[i - 1]) {
        lemma_word_start_bound(b, i - 1);
    }
}

proof fn lemma_word_end_bound(b: Seq<u8>, i: int)
    requires
        i <= b.len(),
    ensures
        i <= word_end(b, i) <= b.len(),
    decreases b.len() - i,
{
    if 0 <= i < b.len() && word_byte(b[i]) {
        lemma_word_end_bound(b, i + 1);
    }
}

/// The hover text at position `pos` of a compiled document; `None` when no
/// character boundary is at that position.
pub fn hover(st: &DocumentState, pos: Position) -> (r: Option<String>)
    requires
        positions_fit(st.source@),
    ensures
        match r {
            Some(t) => exists|k: int| 0 <= k <= st.source@.len() && pos_at(st.source@, k) == (pos.line as nat, pos.character as nat)
                && hover_spec(*st, byte_offset(st.source@, k) as int) == Some(t@),
            None => forall|k: int| 0 <= k <= st.source@.len() && pos_at(st.source@, k) == (pos.line as nat, pos.character as nat)
                ==> hover_spec(*st, byte_offset(st.source@, k) as int) is None,
        },
{
    let offset = match position_to_offset(st.source.as_str(), pos) {
        Some(b) => b,
        None => return None,
    };
    let r = hover_at(st, offset);
    proof {
        let s = st.source@;
        let k0 = choose|k: int| 0 <= k <= s.len() && pos_at(s, k) == (pos.line as nat, pos.character as nat)
            && offset == byte_offset(s, k);
        assert forall|k: int| 0 <= k <= s.len() && pos_at(s, k) == (pos.line as nat, pos.character as nat)
            implies k == k0 by {
            crate::lsp::lemma_position_roundtrip(s, k0, k);
        }
    }
    r
}

} // verus!
