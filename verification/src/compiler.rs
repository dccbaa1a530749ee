//! Source-line bookkeeping for compiled code: where each line of a source
//! text starts, and which line a byte offset falls on.
use vstd::prelude::*;
use crate::text::{byte_offset, chars_of, text_fits, utf8_width, width, lemma_byte_offset_step,
    lemma_byte_offset_full, lemma_byte_offset_mono};
use vstd::utf8::*;
use crate::ast::{BinOp, Expr, MatchArm, Param, Pattern, Program, Stmt, UnOp};
use crate::error::Error;
use crate::ir::{BytecodeFn, Chunk, Opcode, encode, first_index_of, le_bytes, operand_bytes, string_views};
use crate::span::{SourceLocation, Span, Spanned};
use crate::symbol::{SymEntry, SymKind, SymbolTable};
use crate::typeck::TypeMap;
use crate::text::push_str_chars;
use crate::stdlib::datetime::{decimal, push_decimal};
use crate::text::{hex_fixed, push_hex_fixed, push_spaces, repeat_char};
use crate::ir::decode_spec;

verus! {

/// Byte offsets just past each line feed among the first `n` characters of `s`, in order.
pub open spec fn newline_ends(s: Seq<char>, n: int) -> Seq<usize>
    decreases n,
{
    if n <= 0 {
        Seq::empty()
    } else if s[n - 1] == '\n' {
        newline_ends(s, n - 1).push(byte_offset(s, n) as usize)
    } else {
        newline_ends(s, n - 1)
    }
}

/// The byte offset at which each line of `s` starts: 0, then one past each line feed.
pub open spec fn line_starts(s: Seq<char>) -> Seq<usize> {
    seq![0usize] + newline_ends(s, s.len() as int)
}

/// Build the table of line starts of `source`, for byte-offset to line-number conversion.
pub fn build_line_offsets(source: &str) -> (offsets: Vec<usize>)
    requires
        text_fits(source@),
    ensures
        offsets@ == line_starts(source@),
{
    let chars = chars_of(source);
    let ghost s = source@;
    let mut offsets: Vec<usize> = Vec::new();
    offsets.push(0);
    let mut pos: usize = 0;
    let mut k: usize = 0;
    proof {
        lemma_byte_offset_full(s);
        assert(offsets@ =~= seq![0usize] + newline_ends(s, 0));
    }
    while k < chars.len()
        invariant
            chars@ == s,
            text_fits(s),
            k <= chars@.len(),
            pos == byte_offset(s, k as int),
            offsets@ == seq![0usize] + newline_ends(s, k as int),
        decreases chars@.len() - k,
    {
        let c = chars[k];
        proof {
            lemma_byte_offset_step(s, k as int);
            lemma_byte_offset_mono(s, k as int + 1, s.len() as int);
            lemma_byte_offset_full(s);
        }
        pos = pos + utf8_width(c);
        k = k + 1;
        if c == '\n' {
            offsets.push(pos);
        }
        proof {
            assert(offsets@ =~= seq![0usize] + newline_ends(s, k as int));
        }
    }
    offsets
}

/// How many entries of `offsets` are at or before `x`.
pub open spec fn count_at_or_before(offsets: Seq<usize>, x: usize) -> nat
    decreases offsets.len(),
{
    if offsets.len() == 0 {
        0
    } else {
        count_at_or_before(offsets.drop_last(), x) + if offsets.last() <= x { 1nat } else { 0nat }
    }
}

/// The line on which byte offset `x` falls in a table of line starts: the
/// position of the last start at or before `x`, or 0 when there is none.
pub open spec fn line_index(offsets: Seq<usize>, x: usize) -> nat {
    let n = count_at_or_before(offsets, x);
    if n == 0 { 0 } else { (n - 1) as nat }
}

/// Every entry is smaller than the next.
pub open spec fn strictly_increasing(s: Seq<usize>) -> bool {
    forall|i: int, j: int| 0 <= i < j < s.len() ==> s[i] < s[j]
}

proof fn lemma_count_split(offsets: Seq<usize>, x: usize, p: int)
    requires
        0 <= p <= offsets.len(),
        forall|i: int| 0 <= i < p ==> offsets[i] <= x,
        forall|i: int| p <= i < offsets.len() ==> offsets[i] > x,
    ensures
        count_at_or_before(offsets, x) == p,
    decreases offsets.len(),
{
    if offsets.len() > 0 {
        let d = offsets.drop_last();
        if p == offsets.len() {
            lemma_count_split(d, x, p - 1);
        } else {
            lemma_count_split(d, x, p);
        }
    }
}

/// Convert a byte offset to a 0-based line number using a table of line
/// starts. On a strictly increasing table the line is the position of the last
/// start at or before `byte_offset`, or 0 when there is none.
pub fn offset_to_line(offsets: &[usize], byte_offset: usize) -> (line: usize)
    ensures
        strictly_increasing(offsets@) ==> line == line_index(offsets@, byte_offset),
{
    // binary search for the number of entries at or before `byte_offset`
    let mut lo: usize = 0;
    let mut hi: usize = offsets.len();
    while lo < hi
        invariant
            lo <= hi <= offsets@.len(),
            strictly_increasing(offsets@) ==> forall|i: int| 0 <= i < lo ==> offsets@[i] <= byte_offset,
            strictly_increasing(offsets@) ==> forall|i: int| hi <= i < offsets@.len() ==> offsets@[i] > byte_offset,
        decreases hi - lo,
    {
        let mid = lo + (hi - lo) / 2;
        if offsets[mid] <= byte_offset {
            lo = mid + 1;
        } else {
            hi = mid;
        }
    }
    proof {
        if strictly_increasing(offsets@) {
            lemma_count_split(offsets@, byte_offset, lo as int);
        }
    }
    if lo == 0 {
        0
    } else {
        lo - 1
    }
}

/// Number of line feeds among the first `k` characters of `s`.
pub open spec fn newlines_before(s: Seq<char>, k: int) -> nat
    decreases k,
{
    if k <= 0 {
        0
    } else {
        newlines_before(s, k - 1) + if s[k - 1] == '\n' { 1nat } else { 0nat }
    }
}

proof fn lemma_newline_ends_shape(s: Seq<char>, n: int)
    requires
        0 <= n <= s.len(),
        text_fits(s),
    ensures
        newline_ends(s, n).len() == newlines_before(s, n),
        forall|i: int| 0 <= i < newline_ends(s, n).len() ==> 0 < #[trigger] newline_ends(s, n)[i] <= byte_offset(s, n),
        strictly_increasing(newline_ends(s, n)),
    decreases n,
{
    if n > 0 {
        lemma_newline_ends_shape(s, n - 1);
        lemma_byte_offset_step(s, n - 1);
        lemma_byte_offset_mono(s, n, s.len() as int);
        lemma_byte_offset_mono(s, 0, n - 1);
        lemma_byte_offset_full(s);
        vstd::utf8::char_is_scalar(s[n - 1]);
    }
}

proof fn lemma_newline_ends_prefix(s: Seq<char>, k: int, n: int)
    requires
        0 <= k <= n <= s.len(),
        text_fits(s),
    ensures
        newline_ends(s, k).len() <= newline_ends(s, n).len(),
        newline_ends(s, k) == newline_ends(s, n).take(newline_ends(s, k).len() as int),
        forall|i: int| newline_ends(s, k).len() <= i < newline_ends(s, n).len()
            ==> #[trigger] newline_ends(s, n)[i] > byte_offset(s, k),
    decreases n - k,
{
    if k < n {
        lemma_newline_ends_prefix(s, k, n - 1);
        lemma_newline_ends_shape(s, n - 1);
        lemma_newline_ends_shape(s, k);
        lemma_byte_offset_step(s, n - 1);
        lemma_byte_offset_mono(s, k, n - 1);
        lemma_byte_offset_mono(s, n, s.len() as int);
        lemma_byte_offset_full(s);
        vstd::utf8::char_is_scalar(s[n - 1]);
        let a = newline_ends(s, k);
        let b = newline_ends(s, n - 1);
        assert(newline_ends(s, n).take(a.len() as int) =~= b.take(a.len() as int));
    } else {
        assert(newline_ends(s, n).take(newline_ends(s, n).len() as int) =~= newline_ends(s, n));
    }
}

/// The table of line starts of a text is strictly increasing, and the line it
/// gives for the offset of the character at position `k` is the number of line
/// feeds before that character.
pub proof fn lemma_line_of_char(s: Seq<char>, k: int)
    requires
        text_fits(s),
        0 <= k <= s.len(),
    ensures
        strictly_increasing(line_starts(s)),
        line_index(line_starts(s), byte_offset(s, k) as usize) == newlines_before(s, k),
{
    let n = s.len() as int;
    lemma_newline_ends_shape(s, n);
    lemma_newline_ends_shape(s, k);
    lemma_newline_ends_prefix(s, k, n);
    lemma_byte_offset_mono(s, k, n);
    lemma_byte_offset_full(s);
    let ls = line_starts(s);
    let ne = newline_ends(s, n);
    assert forall|i: int, j: int| 0 <= i < j < ls.len() implies ls[i] < ls[j] by {
        if i == 0 {
            assert(ls[j] == ne[j - 1]);
        } else {
            assert(ls[i] == ne[i - 1] && ls[j] == ne[j - 1]);
        }
    }
    let x = byte_offset(s, k) as usize;
    let p = newlines_before(s, k) + 1;
    assert forall|i: int| 0 <= i < p implies ls[i] <= x by {
        if i > 0 {
            assert(ls[i] == ne[i - 1]);
            assert(ne[i - 1] == newline_ends(s, k)[i - 1]);
        }
    }
    assert forall|i: int| p <= i < ls.len() implies ls[i] > x by {
        assert(ls[i] == ne[i - 1]);
    }
    lemma_count_split(ls, x, p as int);
}

/// The instruction that applies a binary operator to the two values on top of
/// the stack.
pub open spec fn binary_opcode_of(op: BinOp) -> Opcode {
    match op {
        BinOp::Add => Opcode::Add,
        BinOp::Sub => Opcode::Sub,
        BinOp::Mul => Opcode::Mul,
        BinOp::Div => Opcode::Div,
        BinOp::Mod => Opcode::Mod,
        BinOp::Eq => Opcode::Eq,
        BinOp::Ne => Opcode::Ne,
        BinOp::Lt => Opcode::Lt,
        BinOp::Le => Opcode::Le,
        BinOp::Gt => Opcode::Gt,
        BinOp::Ge => Opcode::Ge,
        BinOp::And => Opcode::And,
        BinOp::Or => Opcode::Or,
        BinOp::BitAnd => Opcode::BitAnd,
        BinOp::BitOr => Opcode::BitOr,
        BinOp::BitXor => Opcode::BitXor,
        BinOp::Shl => Opcode::Shl,
        _ => Opcode::Shr,
    }
}

/// Each binary operator is carried out by the virtual machine's instruction
/// for that same operation: `+` by `Add`, `<` by `Lt`, `>` by `Gt`, `&&` by
/// `And`, `<<` by `Shl`, and so on.
pub proof fn lemma_binary_instructions()
    ensures
        binary_opcode_of(BinOp::Add) == Opcode::Add,
        binary_opcode_of(BinOp::Sub) == Opcode::Sub,
        binary_opcode_of(BinOp::Mul) == Opcode::Mul,
        binary_opcode_of(BinOp::Div) == Opcode::Div,
        binary_opcode_of(BinOp::Mod) == Opcode::Mod,
        binary_opcode_of(BinOp::Eq) == Opcode::Eq,
        binary_opcode_of(BinOp::Ne) == Opcode::Ne,
        binary_opcode_of(BinOp::Lt) == Opcode::Lt,
        binary_opcode_of(BinOp::Le) == Opcode::Le,
        binary_opcode_of(BinOp::Gt) == Opcode::Gt,
        binary_opcode_of(BinOp::Ge) == Opcode::Ge,
        binary_opcode_of(BinOp::And) == Opcode::And,
        binary_opcode_of(BinOp::Or) == Opcode::Or,
        binary_opcode_of(BinOp::BitAnd) == Opcode::BitAnd,
        binary_opcode_of(BinOp::BitOr) == Opcode::BitOr,
        binary_opcode_of(BinOp::BitXor) == Opcode::BitXor,
        binary_opcode_of(BinOp::Shl) == Opcode::Shl,
        binary_opcode_of(BinOp::Shr) == Opcode::Shr,
{
}

/// The instruction for a binary operator other than assignment.
pub fn binary_opcode(op: BinOp) -> (code: Opcode)
    requires
        op != BinOp::Assign,
    ensures
        code == binary_opcode_of(op),
{
    match op {
        BinOp::Add => Opcode::Add,
        BinOp::Sub => Opcode::Sub,
        BinOp::Mul => Opcode::Mul,
        BinOp::Div => Opcode::Div,
        BinOp::Mod => Opcode::Mod,
        BinOp::Eq => Opcode::Eq,
        BinOp::Ne => Opcode::Ne,
        BinOp::Lt => Opcode::Lt,
        BinOp::Le => Opcode::Le,
        BinOp::Gt => Opcode::Gt,
        BinOp::Ge => Opcode::Ge,
        BinOp::And => Opcode::And,
        BinOp::Or => Opcode::Or,
        BinOp::BitAnd => Opcode::BitAnd,
        BinOp::BitOr => Opcode::BitOr,
        BinOp::BitXor => Opcode::BitXor,
        BinOp::Shl => Opcode::Shl,
        _ => Opcode::Shr,
    }
}


/// A value of a chunk's constant pool. A float is kept as the literal's text.
#[derive(Debug, Clone)]
pub enum Constant {
    Nil,
    Bool(bool),
    Int(i64),
    Float(String),
    Str(String),
    Function(usize),
}

/// Two constants are the same value: same kind and same payload.
pub open spec fn same_constant(a: Constant, b: Constant) -> bool {
    match (a, b) {
        (Constant::Nil, Constant::Nil) => true,
        (Constant::Bool(x), Constant::Bool(y)) => x == y,
        (Constant::Int(x), Constant::Int(y)) => x == y,
        (Constant::Float(x), Constant::Float(y)) => x@ == y@,
        (Constant::Str(x), Constant::Str(y)) => x@ == y@,
        (Constant::Function(x), Constant::Function(y)) => x == y,
        _ => false,
    }
}

/// Whether two constants are the same value.
pub fn constants_equal(a: &Constant, b: &Constant) -> (r: bool)
    ensures
        r == same_constant(*a, *b),
{
    match (a, b) {
        (Constant::Nil, Constant::Nil) => true,
        (Constant::Bool(x), Constant::Bool(y)) => *x == *y,
        (Constant::Int(x), Constant::Int(y)) => *x == *y,
        (Constant::Float(x), Constant::Float(y)) => *x == *y,
        (Constant::Str(x), Constant::Str(y)) => *x == *y,
        (Constant::Function(x), Constant::Function(y)) => *x == *y,
        _ => false,
    }
}

/// The position of the first constant of `pool` that is the same value as `c`.
pub open spec fn first_same(pool: Seq<Constant>, c: Constant) -> Option<int> {
    if exists|i: int| 0 <= i < pool.len() && same_constant(pool[i], c) {
        Some(choose|i: int| 0 <= i < pool.len() && same_constant(pool[i], c)
            && forall|j: int| 0 <= j < i ==> !same_constant(pool[j], c))
    } else {
        None
    }
}

/// Every error is a compile error.
pub open spec fn all_compile(errors: Seq<Error>) -> bool {
    forall|i: int| 0 <= i < errors.len() ==> errors[i] is Compile
}

/// Each code byte of a function has its line.
pub open spec fn lines_parallel(f: BytecodeFn<Constant>) -> bool {
    f.chunk.lines@.len() == f.chunk.code@.len()
}

/// `a` is a prefix of `b`.
pub open spec fn is_prefix<T>(a: Seq<T>, b: Seq<T>) -> bool {
    &&& a.len() <= b.len()
    &&& forall|i: int| 0 <= i < a.len() ==> #[trigger] b[i] == a[i]
}

/// A local variable of the function being compiled: its name, the depth of
/// the scope that declared it, and its slot.
#[derive(Debug, Clone)]
pub struct Local {
    pub name: String,
    pub depth: usize,
    pub slot: u16,
}

/// Locals are ordered by scope depth, none deeper than `depth`.
pub open spec fn locals_ok(ls: Seq<Local>, depth: nat) -> bool {
    &&& forall|i: int, j: int| 0 <= i <= j < ls.len() ==> ls[i].depth <= ls[j].depth
    &&& forall|i: int| 0 <= i < ls.len() ==> ls[i].depth <= depth
}

/// The slot of the innermost local named `name`.
pub open spec fn local_slot(ls: Seq<Local>, name: Seq<char>) -> Option<u16>
    decreases ls.len(),
{
    if ls.len() == 0 {
        None
    } else if ls.last().name@ == name {
        Some(ls.last().slot)
    } else {
        local_slot(ls.drop_last(), name)
    }
}

/// The value recorded under `name` in a list of named entries; the first
/// entry with that name counts.
pub open spec fn assoc<V>(entries: Seq<(String, V)>, name: Seq<char>) -> Option<V>
    decreases entries.len(),
{
    if entries.len() == 0 {
        None
    } else if entries[0].0@ == name {
        Some(entries[0].1)
    } else {
        assoc(entries.drop_first(), name)
    }
}

/// What the whole compilation shares: the global slots by name (a global's
/// index is its position), each user function's index, the errors found, the
/// table of line starts, the next lambda's index, the compiled lambdas, and
/// the symbols of the checked program.
pub struct CompileContext<'a> {
    pub globals: Vec<String>,
    pub function_names: Vec<(String, usize)>,
    pub errors: Vec<Error>,
    pub line_offsets: Vec<usize>,
    pub lambda_counter: usize,
    pub lambda_fns: Vec<BytecodeFn<Constant>>,
    pub symbols: &'a SymbolTable,
}

impl<'a> CompileContext<'a> {
    pub open spec fn wf(self) -> bool {
        &&& self.symbols.wf()
        &&& all_compile(self.errors@)
        &&& forall|i: int| 0 <= i < self.lambda_fns@.len() ==> lines_parallel(#[trigger] self.lambda_fns@[i])
    }

    /// `b` follows `self`: globals, errors and lambdas only grow, the rest is as it was.
    pub open spec fn kept(self, b: Self) -> bool {
        &&& b.wf()
        &&& b.symbols == self.symbols
        &&& b.line_offsets@ == self.line_offsets@
        &&& b.function_names@ == self.function_names@
        &&& is_prefix(self.globals@, b.globals@)
        &&& is_prefix(self.errors@, b.errors@)
        &&& is_prefix(self.lambda_fns@, b.lambda_fns@)
    }
}

/// The pending jump lists after a step that started with `start` code bytes:
/// as many lists as before, all but the innermost unchanged, and the innermost
/// extended only by jumps emitted during the step.
pub open spec fn jumps_kept(a: Seq<Vec<usize>>, b: Seq<Vec<usize>>, start: nat) -> bool {
    &&& b.len() == a.len()
    &&& forall|i: int| 0 <= i < a.len() - 1 ==> b[i]@ == a[i]@
    &&& a.len() > 0 ==> is_prefix(a.last()@, b.last()@)
    &&& a.len() > 0 ==> forall|k: int| a.last()@.len() <= k < b.last()@.len() ==> start <= b.last()@[k]
}

proof fn lemma_jumps_kept_trans(a: Seq<Vec<usize>>, b: Seq<Vec<usize>>, c: Seq<Vec<usize>>, s1: nat, s2: nat)
    requires
        jumps_kept(a, b, s1),
        jumps_kept(b, c, s2),
        s1 <= s2,
    ensures
        jumps_kept(a, c, s1),
{
    if a.len() > 0 {
        let (x, y, z) = (a.last()@, b.last()@, c.last()@);
        assert forall|k: int| x.len() <= k < z.len() implies s1 <= z[k] by {
            if k < y.len() {
                assert(z[k] == y[k]);
            }
        }
    }
}

proof fn lemma_jumps_kept_refl(a: Seq<Vec<usize>>, start: nat)
    ensures
        jumps_kept(a, a, start),
{
}

/// Compiles one function: its chunk, its locals and open scopes, the loops it
/// is inside, and the line it is at.
pub struct FunctionCompiler {
    pub name: String,
    pub arity: u32,
    pub chunk: Chunk<Constant>,
    pub locals: Vec<Local>,
    /// For each open scope, the number of locals when it was entered; the
    /// scope depth is its length.
    pub scope_marks: Vec<usize>,
    pub loop_start: Vec<usize>,
    pub loop_continue: Vec<usize>,
    /// For each enclosing loop, the offsets of the jumps that leave it.
    pub loop_end_jumps: Vec<Vec<usize>>,
    pub current_line: usize,
}

impl FunctionCompiler {
    pub open spec fn depth(self) -> nat {
        self.scope_marks@.len()
    }

    pub open spec fn wf(self) -> bool {
        &&& self.chunk.lines@.len() == self.chunk.code@.len()
        &&& forall|i: int, k: int| 0 <= i < self.loop_end_jumps@.len() && 0 <= k < self.loop_end_jumps@[i]@.len()
            ==> #[trigger] self.loop_end_jumps@[i]@[k] + 2 < self.chunk.code@.len()
        &&& locals_ok(self.locals@, self.depth())
    }

    /// `b` follows `self` in the same function, where the step began with
    /// `start` code bytes: the bytes before `start` as they were, lines and
    /// constants only appended, the loops and line as they were, and the
    /// pending jumps kept.
    pub open spec fn follows(self, b: Self, start: nat) -> bool {
        &&& b.wf()
        &&& b.name == self.name
        &&& b.arity == self.arity
        &&& b.current_line == self.current_line
        &&& start <= self.chunk.code@.len() <= b.chunk.code@.len()
        &&& forall|i: int| 0 <= i < start ==> #[trigger] b.chunk.code@[i] == self.chunk.code@[i]
        &&& is_prefix(self.chunk.lines@, b.chunk.lines@)
        &&& is_prefix(self.chunk.constants@, b.chunk.constants@)
        &&& b.loop_start@ == self.loop_start@
        &&& b.loop_continue@ == self.loop_continue@
        &&& jumps_kept(self.loop_end_jumps@, b.loop_end_jumps@, start)
    }

    /// `b` follows `self`, with every byte `self` had kept.
    pub open spec fn kept(self, b: Self) -> bool {
        self.follows(b, self.chunk.code@.len())
    }

    /// `kept`, with the same locals and scopes.
    pub open spec fn balanced(self, b: Self) -> bool {
        &&& self.kept(b)
        &&& b.locals@ == self.locals@
        &&& b.scope_marks@ == self.scope_marks@
    }

    /// A compiler for a function with the given name and arity, at line 0.
    pub fn new(name: String, arity: u32) -> (fc: FunctionCompiler)
        ensures
            fc.wf(),
            fc.name == name,
            fc.arity == arity,
            fc.chunk.code@.len() == 0,
            fc.chunk.constants@.len() == 0,
            fc.chunk.field_names@.len() == 0,
            fc.chunk.method_names@.len() == 0,
            fc.chunk.locals == 0,
            fc.locals@.len() == 0,
            fc.scope_marks@.len() == 0,
            fc.loop_start@.len() == 0,
            fc.loop_continue@.len() == 0,
            fc.loop_end_jumps@.len() == 0,
            fc.current_line == 0,
    {
        FunctionCompiler {
            name,
            arity,
            chunk: Chunk::new(),
            locals: Vec::new(),
            scope_marks: Vec::new(),
            loop_start: Vec::new(),
            loop_continue: Vec::new(),
            loop_end_jumps: Vec::new(),
            current_line: 0,
        }
    }

    /// The compiled function.
    pub fn finalize(self) -> (f: BytecodeFn<Constant>)
        ensures
            f.name == self.name,
            f.arity == self.arity,
            f.chunk == self.chunk,
            f.upvalues@.len() == 0,
    {
        BytecodeFn { name: self.name, chunk: self.chunk, arity: self.arity, upvalues: Vec::new() }
    }

    /// Record a compile error at the current line.
    fn error(&self, ctx: &mut CompileContext, msg: String)
        requires
            old(ctx).wf(),
        ensures
            final(ctx).wf(),
            final(ctx).errors@ == old(ctx).errors@.push(Error::Compile {
                location: SourceLocation {
                    file: None,
                    span: Span(0, 0),
                    line: self.current_line,
                    column: 0,
                },
                msg,
            }),
            final(ctx).globals@ == old(ctx).globals@,
            final(ctx).function_names@ == old(ctx).function_names@,
            final(ctx).line_offsets@ == old(ctx).line_offsets@,
            final(ctx).lambda_counter == old(ctx).lambda_counter,
            final(ctx).lambda_fns@ == old(ctx).lambda_fns@,
            final(ctx).symbols == old(ctx).symbols,
    {
        let location = SourceLocation::new(None, Span::new(0, 0), self.current_line, 0);
        ctx.errors.push(Error::Compile { location, msg });
    }

    /// The index of a constant that is the same value as `val`: the first such
    /// in the pool, else `val` appended.
    pub fn add_const(&mut self, val: Constant) -> (idx: u16)
        requires
            old(self).wf(),
        ensures
            final(self).wf(),
            match first_same(old(self).chunk.constants@, val) {
                Some(i) => idx == i as u16 && final(self).chunk.constants@ == old(self).chunk.constants@,
                None => idx == old(self).chunk.constants@.len() as u16
                    && final(self).chunk.constants@ == old(self).chunk.constants@.push(val),
            },
            final(self).chunk.code@ == old(self).chunk.code@,
            final(self).chunk.lines@ == old(self).chunk.lines@,
            final(self).chunk.locals == old(self).chunk.locals,
            final(self).chunk.field_names@ == old(self).chunk.field_names@,
            final(self).chunk.method_names@ == old(self).chunk.method_names@,
            final(self).name == old(self).name,
            final(self).arity == old(self).arity,
            final(self).locals@ == old(self).locals@,
            final(self).scope_marks@ == old(self).scope_marks@,
            final(self).loop_start@ == old(self).loop_start@,
            final(self).loop_continue@ == old(self).loop_continue@,
            final(self).loop_end_jumps@ == old(self).loop_end_jumps@,
            final(self).current_line == old(self).current_line,
    {
        let mut i: usize = 0;
        while i < self.chunk.constants.len()
            invariant
                *self == *old(self),
                self.wf(),
                i <= self.chunk.constants@.len(),
                forall|j: int| 0 <= j < i ==> !same_constant(self.chunk.constants@[j], val),
            decreases self.chunk.constants@.len() - i,
        {
            if constants_equal(&self.chunk.constants[i], &val) {
                proof {
                    let pool = self.chunk.constants@;
                    let w = choose|w: int| 0 <= w < pool.len() && same_constant(pool[w], val)
                        && forall|j: int| 0 <= j < w ==> !same_constant(pool[j], val);
                    if w < i {
                        assert(!same_constant(pool[w], val));
                    }
                    if i < w {
                        assert(!same_constant(pool[i as int], val));
                    }
                }
                #[verifier::truncate]
                let r = i as u16;
                return r;
            }
            i = i + 1;
        }
        self.chunk.add_constant(val)
    }

    /// Emit `op` on the current line.
    pub fn emit_op(&mut self, op: Opcode)
        requires
            old(self).wf(),
        ensures
            final(self).wf(),
            old(self).kept(*final(self)),
            final(self).chunk.code@ == old(self).chunk.code@ + encode(op),
            final(self).chunk.constants@ == old(self).chunk.constants@,
            final(self).chunk.locals == old(self).chunk.locals,
            final(self).chunk.field_names@ == old(self).chunk.field_names@,
            final(self).chunk.method_names@ == old(self).chunk.method_names@,
            final(self).locals@ == old(self).locals@,
            final(self).scope_marks@ == old(self).scope_marks@,
            final(self).loop_end_jumps@ == old(self).loop_end_jumps@,
    {
        let line = self.current_line;
        self.chunk.emit_op(op, line);
        proof {
            lemma_jumps_kept_refl(self.loop_end_jumps@, old(self).chunk.code@.len());
        }
    }
}


proof fn lemma_follows_trans(a: FunctionCompiler, b: FunctionCompiler, c: FunctionCompiler, s1: nat, s2: nat)
    requires
        a.follows(b, s1),
        b.follows(c, s2),
        s1 <= s2,
    ensures
        a.follows(c, s1),
{
    lemma_jumps_kept_trans(a.loop_end_jumps@, b.loop_end_jumps@, c.loop_end_jumps@, s1, s2);
}

proof fn lemma_follows_weaken(a: FunctionCompiler, b: FunctionCompiler, s1: nat, s2: nat)
    requires
        a.follows(b, s2),
        s1 <= s2,
    ensures
        a.follows(b, s1),
{
}

proof fn lemma_follows_refl(a: FunctionCompiler)
    requires
        a.wf(),
    ensures
        a.kept(a),
{
    lemma_jumps_kept_refl(a.loop_end_jumps@, a.chunk.code@.len());
}


/// The index `add_const` gives `c` in `pool`.
pub open spec fn const_index(pool: Seq<Constant>, c: Constant) -> u16 {
    match first_same(pool, c) {
        Some(i) => i as u16,
        None => pool.len() as u16,
    }
}

/// The pool after `add_const` of `c`.
pub open spec fn pool_after(pool: Seq<Constant>, c: Constant) -> Seq<Constant> {
    match first_same(pool, c) {
        Some(_) => pool,
        None => pool.push(c),
    }
}

/// The slot of global `name`: its position among the globals, cut to 16 bits.
pub open spec fn global_slot(globals: Seq<String>, name: Seq<char>) -> Option<u16> {
    match first_index_of(string_views(globals), name) {
        Some(i) => Some(i as u16),
        None => None,
    }
}

impl FunctionCompiler {
    /// Emit a load of constant `val`.
    pub fn load_const(&mut self, val: Constant)
        requires
            old(self).wf(),
        ensures
            old(self).kept(*final(self)),
            final(self).chunk.constants@ == pool_after(old(self).chunk.constants@, val),
            final(self).chunk.code@ == old(self).chunk.code@ + encode(
                Opcode::LoadConst(const_index(old(self).chunk.constants@, val)),
            ),
            final(self).locals@ == old(self).locals@,
            final(self).scope_marks@ == old(self).scope_marks@,
            final(self).loop_end_jumps@ == old(self).loop_end_jumps@,
            final(self).chunk.locals == old(self).chunk.locals,
    {
        let ghost before = *self;
        let idx = self.add_const(val);
        proof {
            lemma_follows_refl(*self);
        }
        let ghost mid = *self;
        self.emit_op(Opcode::LoadConst(idx));
        proof {
            lemma_follows_trans(before, mid, *self, before.chunk.code@.len(), mid.chunk.code@.len());
        }
    }

    /// Emit a load of `nil`.
    pub fn none(&mut self)
        requires
            old(self).wf(),
        ensures
            old(self).kept(*final(self)),
            final(self).chunk.constants@ == pool_after(old(self).chunk.constants@, Constant::Nil),
            final(self).chunk.code@ == old(self).chunk.code@ + encode(
                Opcode::LoadConst(const_index(old(self).chunk.constants@, Constant::Nil)),
            ),
            final(self).locals@ == old(self).locals@,
            final(self).scope_marks@ == old(self).scope_marks@,
            final(self).loop_end_jumps@ == old(self).loop_end_jumps@,
            final(self).chunk.locals == old(self).chunk.locals,
    {
        self.load_const(Constant::Nil);
    }

    /// Set the current line to the one on which byte `byte_offset` of the source falls.
    pub fn set_line_by_offset(&mut self, ctx: &CompileContext, byte_offset: usize)
        ensures
            final(self).current_line == (if strictly_increasing(ctx.line_offsets@) {
                line_index(ctx.line_offsets@, byte_offset) as usize
            } else {
                final(self).current_line
            }),
            final(self).chunk == old(self).chunk,
            final(self).name == old(self).name,
            final(self).arity == old(self).arity,
            final(self).locals@ == old(self).locals@,
            final(self).scope_marks@ == old(self).scope_marks@,
            final(self).loop_start@ == old(self).loop_start@,
            final(self).loop_continue@ == old(self).loop_continue@,
            final(self).loop_end_jumps@ == old(self).loop_end_jumps@,
    {
        self.current_line = offset_to_line(ctx.line_offsets.as_slice(), byte_offset);
    }

    /// The offset at which the next instruction will be emitted.
    pub fn current_offset(&self) -> (n: usize)
        ensures
            n == self.chunk.code@.len(),
    {
        self.chunk.code.len()
    }

    /// Point the jump whose opcode is at `opcode_offset` at the current offset.
    pub fn patch_jump(&mut self, opcode_offset: usize)
        requires
            old(self).wf(),
            opcode_offset + 2 < old(self).chunk.code@.len(),
        ensures
            old(self).follows(*final(self), (opcode_offset + 1) as nat),
            final(self).chunk.code@ == old(self).chunk.code@.update(
                opcode_offset + 1,
                le_bytes(old(self).chunk.code@.len() as u16)[0],
            ).update(opcode_offset + 2, le_bytes(old(self).chunk.code@.len() as u16)[1]),
            final(self).chunk.constants@ == old(self).chunk.constants@,
            final(self).chunk.locals == old(self).chunk.locals,
            final(self).locals@ == old(self).locals@,
            final(self).scope_marks@ == old(self).scope_marks@,
            final(self).loop_end_jumps@ == old(self).loop_end_jumps@,
    {
        #[verifier::truncate]
        let target = self.chunk.code.len() as u16;
        self.chunk.patch_u16(opcode_offset + 1, target);
        proof {
            let s = (opcode_offset + 1) as int;
            lemma_jumps_kept_refl(self.loop_end_jumps@, s as nat);
        }
    }

    /// Declare local `name` in the current scope, in the next free slot.
    pub fn add_local(&mut self, name: &str) -> (slot: u16)
        requires
            old(self).wf(),
        ensures
            old(self).kept(*final(self)),
            slot == old(self).chunk.locals as u16,
            final(self).chunk.locals == (if old(self).chunk.locals < u32::MAX { old(self).chunk.locals + 1 } else { 0 }),
            final(self).locals@.len() == old(self).locals@.len() + 1,
            final(self).locals@.drop_last() == old(self).locals@,
            final(self).locals@.last().name@ == name@,
            final(self).locals@.last().depth == old(self).depth(),
            final(self).locals@.last().slot == slot,
            final(self).scope_marks@ == old(self).scope_marks@,
            final(self).chunk.code@ == old(self).chunk.code@,
            final(self).chunk.constants@ == old(self).chunk.constants@,
            final(self).loop_end_jumps@ == old(self).loop_end_jumps@,
    {
        #[verifier::truncate]
        let slot = self.chunk.locals as u16;
        if self.chunk.locals < u32::MAX {
            self.chunk.locals = self.chunk.locals + 1;
        } else {
            self.chunk.locals = 0;
        }
        let depth = self.scope_marks.len();
        self.locals.push(Local { name: name.to_string(), depth, slot });
        proof {
            assert(self.locals@.drop_last() =~= old(self).locals@);
            lemma_follows_refl(*old(self));
            assert(locals_ok(self.locals@, self.depth())) by {
                assert forall|i: int, j: int| 0 <= i <= j < self.locals@.len()
                    implies self.locals@[i].depth <= self.locals@[j].depth by {
                    if j < old(self).locals@.len() {
                        assert(self.locals@[i] == old(self).locals@[i]);
                        assert(self.locals@[j] == old(self).locals@[j]);
                    } else if i < old(self).locals@.len() {
                        assert(self.locals@[i] == old(self).locals@[i]);
                    }
                }
                assert forall|i: int| 0 <= i < self.locals@.len() implies self.locals@[i].depth <= self.depth() by {
                    if i < old(self).locals@.len() {
                        assert(self.locals@[i] == old(self).locals@[i]);
                    }
                }
            }
        }
        slot
    }

    /// The slot of the innermost local named `name`, if any.
    pub fn resolve_local(&self, name: &str) -> (r: Option<u16>)
        ensures
            r == local_slot(self.locals@, name@),
    {
        let key = name.to_string();
        let mut i: usize = self.locals.len();
        assert(self.locals@.subrange(0, i as int) =~= self.locals@);
        while i > 0
            invariant
                key@ == name@,
                i <= self.locals@.len(),
                local_slot(self.locals@, name@) == local_slot(self.locals@.subrange(0, i as int), name@),
            decreases i,
        {
            let ghost pre = self.locals@.subrange(0, i as int);
            assert(pre.drop_last() =~= self.locals@.subrange(0, i - 1));
            assert(pre.last() == self.locals@[i - 1]);
            if self.locals[i - 1].name == key {
                return Some(self.locals[i - 1].slot);
            }
            i = i - 1;
        }
        None
    }

    /// Open a scope.
    pub fn enter_scope(&mut self)
        requires
            old(self).wf(),
        ensures
            old(self).kept(*final(self)),
            final(self).scope_marks@ == old(self).scope_marks@.push(old(self).locals@.len() as usize),
            final(self).locals@ == old(self).locals@,
            final(self).chunk == old(self).chunk,
            final(self).loop_end_jumps@ == old(self).loop_end_jumps@,
    {
        let n = self.locals.len();
        self.scope_marks.push(n);
        proof {
            lemma_follows_refl(*old(self));
        }
    }

    /// Close the innermost scope, dropping the locals it declared.
    pub fn exit_scope(&mut self)
        requires
            old(self).wf(),
            old(self).scope_marks@.len() >= 1,
        ensures
            old(self).kept(*final(self)),
            final(self).scope_marks@ == old(self).scope_marks@.drop_last(),
            final(self).locals@.len() <= old(self).locals@.len(),
            final(self).locals@ == old(self).locals@.subrange(0, final(self).locals@.len() as int),
            forall|i: int| 0 <= i < final(self).locals@.len() ==> final(self).locals@[i].depth < old(self).depth(),
            forall|i: int| final(self).locals@.len() <= i < old(self).locals@.len()
                ==> old(self).locals@[i].depth == old(self).depth(),
            final(self).chunk == old(self).chunk,
            final(self).loop_end_jumps@ == old(self).loop_end_jumps@,
    {
        let depth = self.scope_marks.len();
        while self.locals.len() > 0 && self.locals[self.locals.len() - 1].depth == depth
            invariant
                depth == old(self).depth(),
                self.scope_marks@ == old(self).scope_marks@,
                self.chunk == old(self).chunk,
                self.loop_end_jumps@ == old(self).loop_end_jumps@,
                self.loop_start@ == old(self).loop_start@,
                self.loop_continue@ == old(self).loop_continue@,
                self.name == old(self).name,
                self.arity == old(self).arity,
                self.current_line == old(self).current_line,
                old(self).wf(),
                self.locals@.len() <= old(self).locals@.len(),
                self.locals@ == old(self).locals@.subrange(0, self.locals@.len() as int),
                forall|i: int| self.locals@.len() <= i < old(self).locals@.len()
                    ==> old(self).locals@[i].depth == depth,
            decreases self.locals@.len(),
        {
            self.locals.pop();
        }
        self.scope_marks.pop();
        proof {
            let ls = self.locals@;
            let n = ls.len();
            if n > 0 {
                assert(ls[n - 1] == old(self).locals@[n - 1]);
                assert(ls[n - 1].depth <= depth);
                assert forall|i: int| 0 <= i < n implies ls[i].depth < depth by {
                    assert(ls[i] == old(self).locals@[i]);
                    assert(old(self).locals@[i].depth <= old(self).locals@[n - 1].depth);
                }
            }
            assert(locals_ok(self.locals@, self.depth())) by {
                assert forall|i: int, j: int| 0 <= i <= j < n implies ls[i].depth <= ls[j].depth by {
                    assert(ls[i] == old(self).locals@[i]);
                    assert(ls[j] == old(self).locals@[j]);
                }
            }
            lemma_follows_refl(*old(self));
        }
    }

    /// The slot of global `name`, if it has one.
    pub fn resolve_global(&self, ctx: &CompileContext, name: &str) -> (r: Option<u16>)
        ensures
            r == global_slot(ctx.globals@, name@),
    {
        let key = name.to_string();
        let mut i: usize = 0;
        while i < ctx.globals.len()
            invariant
                key@ == name@,
                i <= ctx.globals@.len(),
                forall|j: int| 0 <= j < i ==> ctx.globals@[j]@ != name@,
            decreases ctx.globals@.len() - i,
        {
            if ctx.globals[i] == key {
                proof {
                    let v = string_views(ctx.globals@);
                    assert(v[i as int] == name@);
                    let w = choose|w: int| 0 <= w < v.len() && v[w] == name@
                        && forall|j: int| 0 <= j < w ==> v[j] != name@;
                    if w < i {
                        assert(ctx.globals@[w]@ != name@);
                    }
                    if i < w {
                        assert(v[i as int] != name@);
                    }
                }
                #[verifier::truncate]
                let r = i as u16;
                return Some(r);
            }
            i = i + 1;
        }
        proof {
            let v = string_views(ctx.globals@);
            assert forall|j: int| 0 <= j < v.len() implies v[j] != name@ by {
                assert(ctx.globals@[j]@ != name@);
            }
        }
        None
    }
}


/// The tag of the unit variant an entry stands for, if it is a constructor
/// without fields.
pub open spec fn unit_variant_tag(e: Option<crate::symbol::SymEntry>) -> Option<u16> {
    match e {
        Some(entry) => match entry.kind {
            SymKind::EnumConstructor { tag, fields, .. } => if fields@.len() == 0 {
                Some(tag)
            } else {
                None
            },
            _ => None,
        },
        None => None,
    }
}

/// The tag of the variant an entry stands for, if it is a constructor.
pub open spec fn variant_tag(e: Option<crate::symbol::SymEntry>) -> Option<u16> {
    match e {
        Some(entry) => match entry.kind {
            SymKind::EnumConstructor { tag, .. } => Some(tag),
            _ => None,
        },
        None => None,
    }
}

/// `e` is the compile error at `line` whose message is `msg`.
pub open spec fn compile_error_is(e: Error, line: usize, msg: Seq<char>) -> bool {
    match e {
        Error::Compile { location, msg: m } => {
            &&& location.file is None
            &&& location.span == Span(0, 0)
            &&& location.line == line
            &&& location.column == 0
            &&& m@ == msg
        },
        _ => false,
    }
}

/// `<a>'<name>'`.
pub open spec fn quoted_msg(a: Seq<char>, name: Seq<char>) -> Seq<char> {
    a + "'"@ + name + "'"@
}

fn quoted(a: &str, name: &str) -> (m: String)
    ensures
        m@ == quoted_msg(a@, name@),
{
    let mut m = String::new();
    push_str_chars(&mut m, a);
    push_str_chars(&mut m, "'");
    push_str_chars(&mut m, name);
    push_str_chars(&mut m, "'");
    m
}

/// What compiling identifier `name` does: load the innermost local of that
/// name, else the user function of that name as a constant, else the global,
/// else build the unit variant it names; any other name is an error.
pub open spec fn ident_compiled(a: FunctionCompiler, b: FunctionCompiler, ca: CompileContext, cb: CompileContext, name: Seq<char>) -> bool {
    match local_slot(a.locals@, name) {
        Some(slot) => b.chunk.code@ == a.chunk.code@ + encode(Opcode::LoadLocal(slot)) && cb.errors@ == ca.errors@,
        None => match assoc(ca.function_names@, name) {
            Some(f) => b.chunk.code@ == a.chunk.code@ + encode(
                Opcode::LoadConst(const_index(a.chunk.constants@, Constant::Function(f))),
            ) && cb.errors@ == ca.errors@,
            None => match global_slot(ca.globals@, name) {
                Some(g) => b.chunk.code@ == a.chunk.code@ + encode(Opcode::LoadGlobal(g)) && cb.errors@ == ca.errors@,
                None => match unit_variant_tag(ca.symbols.resolves(name)) {
                    Some(tag) => b.chunk.code@ == a.chunk.code@ + encode(Opcode::MakeEnum(tag, 0))
                        && cb.errors@ == ca.errors@,
                    None => {
                        &&& b.chunk.code@ == a.chunk.code@
                        &&& cb.errors@.len() == ca.errors@.len() + 1
                        &&& compile_error_is(cb.errors@.last(), a.current_line, quoted_msg("undefined name "@, name))
                    },
                },
            },
        },
    }
}

/// The index recorded for user function `name`.
pub fn lookup_function(ctx: &CompileContext, name: &str) -> (r: Option<usize>)
    ensures
        r == assoc(ctx.function_names@, name@),
{
    let key = name.to_string();
    let mut i: usize = 0;
    assert(ctx.function_names@.skip(0) =~= ctx.function_names@);
    while i < ctx.function_names.len()
        invariant
            key@ == name@,
            i <= ctx.function_names@.len(),
            assoc(ctx.function_names@, name@) == assoc(ctx.function_names@.skip(i as int), name@),
        decreases ctx.function_names@.len() - i,
    {
        let ghost rest = ctx.function_names@.skip(i as int);
        assert(rest[0] == ctx.function_names@[i as int]);
        assert(rest.drop_first() =~= ctx.function_names@.skip(i + 1));
        if ctx.function_names[i].0 == key {
            return Some(ctx.function_names[i].1);
        }
        i = i + 1;
    }
    assert(ctx.function_names@.skip(i as int).len() == 0);
    None
}

impl FunctionCompiler {
    /// Compile a use of identifier `name`.
    fn compile_ident(&mut self, ctx: &mut CompileContext, name: &String)
        requires
            old(self).wf(),
            old(ctx).wf(),
        ensures
            old(self).balanced(*final(self)),
            old(ctx).kept(*final(ctx)),
            ident_compiled(*old(self), *final(self), *old(ctx), *final(ctx), name@),
    {
        proof {
            lemma_follows_refl(*self);
        }
        match self.resolve_local(name.as_str()) {
            Some(idx) => {
                self.emit_op(Opcode::LoadLocal(idx));
                return;
            },
            None => {},
        }
        match lookup_function(ctx, name.as_str()) {
            Some(fn_idx) => {
                self.load_const(Constant::Function(fn_idx));
                return;
            },
            None => {},
        }
        match self.resolve_global(ctx, name.as_str()) {
            Some(idx) => {
                self.emit_op(Opcode::LoadGlobal(idx));
                return;
            },
            None => {},
        }
        match ctx.symbols.lookup(name.as_str()) {
            Some(entry) => {
                match &entry.kind {
                    SymKind::EnumConstructor { tag, fields, .. } => {
                        if fields.len() == 0 {
                            self.emit_op(Opcode::MakeEnum(*tag, 0));
                            return;
                        }
                    },
                    _ => {},
                }
            },
            None => {},
        }
        let msg = quoted("undefined name ", name.as_str());
        self.error(ctx, msg);
    }
}


/// `code` ends with a load of the constant `nil` from `pool`.
pub open spec fn loads_nil_last(code: Seq<u8>, pool: Seq<Constant>) -> bool {
    exists|i: int| 0 <= i < pool.len() && pool[i] is Nil && #[trigger] ends_with(code, Opcode::LoadConst(i as u16))
}

/// A value in the pool has a first place in it.
proof fn lemma_first_same_exists(pool: Seq<Constant>, c: Constant, k: int)
    requires
        0 <= k < pool.len(),
        same_constant(pool[k], c),
    ensures
        exists|w: int| 0 <= w < pool.len() && same_constant(pool[w], c) && forall|j: int| 0 <= j < w ==> !same_constant(pool[j], c),
    decreases k,
{
    if exists|j: int| 0 <= j < k && same_constant(pool[j], c) {
        let j = choose|j: int| 0 <= j < k && same_constant(pool[j], c);
        lemma_first_same_exists(pool, c, j);
    } else {
        assert(forall|j: int| 0 <= j < k ==> !same_constant(pool[j], c));
    }
}

proof fn lemma_nil_loaded(prev: Seq<u8>, pool: Seq<Constant>)
    ensures
        loads_nil_last(prev + encode(Opcode::LoadConst(const_index(pool, Constant::Nil))), pool_after(pool, Constant::Nil)),
{
    if exists|k: int| 0 <= k < pool.len() && same_constant(pool[k], Constant::Nil) {
        let k = choose|k: int| 0 <= k < pool.len() && same_constant(pool[k], Constant::Nil);
        lemma_first_same_exists(pool, Constant::Nil, k);
    }
    let i = match first_same(pool, Constant::Nil) {
        Some(w) => w,
        None => pool.len() as int,
    };
    lemma_ends_with(prev, Opcode::LoadConst(const_index(pool, Constant::Nil)));
    assert(pool_after(pool, Constant::Nil)[i] is Nil);
    assert(ends_with(prev + encode(Opcode::LoadConst(const_index(pool, Constant::Nil))), Opcode::LoadConst(i as u16)));
}

/// A jump is three bytes long.
proof fn lemma_jump_len(x: u16)
    ensures
        encode(Opcode::Jump(x)).len() == 3,
{
    assert(seq![x].drop_first() =~= Seq::<u16>::empty());
    reveal_with_fuel(operand_bytes, 2);
}

/// A constant load is three bytes long.
proof fn lemma_load_const_len(x: u16)
    ensures
        encode(Opcode::LoadConst(x)).len() == 3,
{
    assert(seq![x].drop_first() =~= Seq::<u16>::empty());
    reveal_with_fuel(operand_bytes, 2);
}

/// Pointing jumps that all lie before `from` leaves the code from `from` on.
proof fn lemma_patched_keeps(code: Seq<u8>, js: Seq<usize>, t: u16, from: int)
    requires
        forall|k: int| 0 <= k < js.len() ==> #[trigger] js[k] + 2 < from,
        from <= code.len(),
    ensures
        patched(code, js, t).len() == code.len(),
        forall|i: int| from <= i < code.len() ==> #[trigger] patched(code, js, t)[i] == code[i],
    decreases js.len(),
{
    if js.len() > 0 {
        assert forall|k: int| 0 <= k < js.drop_last().len() implies #[trigger] js.drop_last()[k] + 2 < from by {
            assert(js.drop_last()[k] == js[k]);
        }
        lemma_patched_keeps(code, js.drop_last(), t, from);
        assert(js.last() == js[js.len() - 1]);
    }
}

/// The suffix `tail` of `code` survives, as a suffix, when the bytes before
/// it are changed.
proof fn lemma_ends_with_kept(a: Seq<u8>, b: Seq<u8>, op: Opcode, from: int)
    requires
        ends_with(a, op),
        a.len() == b.len(),
        from <= a.len() - encode(op).len(),
        forall|i: int| from <= i < a.len() ==> #[trigger] b[i] == a[i],
    ensures
        ends_with(b, op),
{
    assert(b.subrange(b.len() - encode(op).len(), b.len() as int) =~= a.subrange(a.len() - encode(op).len(), a.len() as int));
}

/// The name a called expression is, when it is a name.
pub open spec fn name_called(e: Expr) -> Seq<char> {
    match e {
        Expr::Ident(n) => n@,
        _ => Seq::empty(),
    }
}

/// `code` ends with the instruction `op`.
pub open spec fn ends_with(code: Seq<u8>, op: Opcode) -> bool {
    &&& code.len() >= encode(op).len()
    &&& code.subrange(code.len() - encode(op).len(), code.len() as int) == encode(op)
}

proof fn lemma_ends_with(prev: Seq<u8>, op: Opcode)
    ensures
        ends_with(prev + encode(op), op),
{
    assert((prev + encode(op)).subrange(prev.len() as int, (prev + encode(op)).len() as int) =~= encode(op));
}

/// The code after the jumps at `js` were pointed, in order, at `target`.
pub open spec fn patched(code: Seq<u8>, js: Seq<usize>, target: u16) -> Seq<u8>
    decreases js.len(),
{
    if js.len() == 0 {
        code
    } else {
        let c = patched(code, js.drop_last(), target);
        c.update(js.last() + 1, le_bytes(target)[0]).update(js.last() + 2, le_bytes(target)[1])
    }
}

/// A global slot was found for `name` after a store to it was emitted, or a
/// new local named `name` took the store, by the scope depth the store began at.
pub open spec fn stored_to(b: FunctionCompiler, cb: CompileContext, name: Seq<char>, depth: nat) -> bool {
    if depth == 0 {
        global_slot(cb.globals@, name) matches Some(g) && ends_with(b.chunk.code@, Opcode::StoreGlobal(g))
    } else {
        b.locals@.len() > 0 && b.locals@.last().name@ == name && ends_with(b.chunk.code@, Opcode::StoreLocal(b.locals@.last().slot))
    }
}

/// What compiling a `let` or `const` of `name` does: when a local of that
/// name is already visible inside a scope, no code and the error `variable
/// '<name>' already defined`; else the value is stored to `name`.
pub open spec fn binding_compiled(a: FunctionCompiler, b: FunctionCompiler, ca: CompileContext, cb: CompileContext, name: Seq<char>) -> bool {
    if a.depth() > 0 && local_slot(a.locals@, name) is Some {
        &&& b.chunk.code@ == a.chunk.code@
        &&& cb.errors@.len() == ca.errors@.len() + 1
        &&& compile_error_is(cb.errors@.last(), a.current_line, quoted_msg("variable "@, name) + " already defined"@)
    } else {
        stored_to(b, cb, name, a.depth())
    }
}

/// The opcode of a unary operator.
pub open spec fn unary_opcode_of(op: UnOp) -> Opcode {
    match op {
        UnOp::Neg => Opcode::Neg,
        UnOp::Not => Opcode::Not,
        UnOp::BitNot => Opcode::BitNot,
    }
}

/// Each prefix operator is carried out by the instruction for that same
/// operation: `-` by `Neg`, `!` by `Not`, `~` by `BitNot`.
pub proof fn lemma_unary_instructions()
    ensures
        unary_opcode_of(UnOp::Neg) == Opcode::Neg,
        unary_opcode_of(UnOp::Not) == Opcode::Not,
        unary_opcode_of(UnOp::BitNot) == Opcode::BitNot,
{
}

/// The index a field name gets in a name table: where it first stands, else
/// the end of the table.
pub open spec fn field_slot(names: Seq<String>, field: Seq<char>) -> u16 {
    match first_index_of(string_views(names), field) {
        Some(i) => i as u16,
        None => names.len() as u16,
    }
}

/// The intermediate states of compiling an expression: after each operand,
/// with the states inside that operand's own compilation.
pub enum CompileTrace<'a> {
    Done,
    One(FunctionCompiler, CompileContext<'a>, Box<CompileTrace<'a>>),
    Two(FunctionCompiler, CompileContext<'a>, Box<CompileTrace<'a>>, FunctionCompiler, CompileContext<'a>, Box<CompileTrace<'a>>),
    /// A conditional: after the condition, after its jump, after the first
    /// branch, after its jump and the first patch, after the other branch.
    Branch(
        FunctionCompiler,
        CompileContext<'a>,
        Box<CompileTrace<'a>>,
        FunctionCompiler,
        FunctionCompiler,
        CompileContext<'a>,
        Box<CompileTrace<'a>>,
        FunctionCompiler,
        FunctionCompiler,
        CompileContext<'a>,
        Box<CompileTrace<'a>>,
    ),
    /// A head, then a list of operands: the states after the head and its
    /// trace, then the states through the list (the first being the state
    /// after the head) and each operand's trace.
    List(
        FunctionCompiler,
        CompileContext<'a>,
        Box<CompileTrace<'a>>,
        Seq<FunctionCompiler>,
        Seq<CompileContext<'a>>,
        Seq<CompileTrace<'a>>,
    ),
}

/// Compiling the expressions `es` in turn goes through the states `ms` and
/// `cs`: from the first, each expression `i` leads from state `i` to state
/// `i + 1` as `expr_traced` says, through trace `ts[i]`.
pub open spec fn exprs_traced(es: Seq<Expr>, ms: Seq<FunctionCompiler>, cs: Seq<CompileContext>, ts: Seq<CompileTrace>) -> bool
    decreases es, 0nat,
{
    &&& ms.len() == es.len() + 1
    &&& cs.len() == es.len() + 1
    &&& ts.len() == es.len()
    &&& es.len() > 0 ==> {
        &&& exprs_traced(es.drop_last(), ms.drop_last(), cs.drop_last(), ts.drop_last())
        &&& expr_traced(es.last(), ms[es.len() - 1], ms[es.len() as int], cs[es.len() - 1], cs[es.len() as int], ts.last())
    }
}

/// Compiling the expressions `es` in turn from `a` and `ca` gives `b` and
/// `cb`, as `exprs_traced` says through some intermediate states.
pub open spec fn exprs_compiled(es: Seq<Expr>, a: FunctionCompiler, b: FunctionCompiler, ca: CompileContext, cb: CompileContext) -> bool {
    exists|ms: Seq<FunctionCompiler>, cs: Seq<CompileContext>, ts: Seq<CompileTrace>|
        #[trigger] exprs_traced(es, ms, cs, ts) && ms[0] == a && cs[0] == ca && ms.last() == b && cs.last() == cb
}

/// `code` with the jump at `j` pointed at `target`.
pub open spec fn patch_at(code: Seq<u8>, j: int, target: u16) -> Seq<u8> {
    code.update(j + 1, le_bytes(target)[0]).update(j + 2, le_bytes(target)[1])
}

/// The code compiling expression `e` appends, from compiler state `a` and
/// context `ca` to `b` and `cb`, through the intermediate states `t`: a
/// literal loads its constant, a name as `ident_compiled` says; an operator
/// expression first evaluates its operands left to right, each as this
/// relation says, then applies the operator; a field read evaluates the
/// object and loads the field; an index read evaluates the object, then the
/// index, then loads the element.
pub open spec fn expr_traced(e: Expr, a: FunctionCompiler, b: FunctionCompiler, ca: CompileContext, cb: CompileContext, t: CompileTrace) -> bool
    decreases e, 2nat,
{
    match e {
        Expr::Int(n) => b.chunk.code@ == a.chunk.code@ + encode(
            Opcode::LoadConst(const_index(a.chunk.constants@, Constant::Int(n))),
        ) && cb.errors@ == ca.errors@,
        Expr::Bool(v) => b.chunk.code@ == a.chunk.code@ + encode(
            Opcode::LoadConst(const_index(a.chunk.constants@, Constant::Bool(v))),
        ) && cb.errors@ == ca.errors@,
        Expr::Str(x) => b.chunk.code@ == a.chunk.code@ + encode(
            Opcode::LoadConst(const_index(a.chunk.constants@, Constant::Str(x))),
        ) && cb.errors@ == ca.errors@,
        Expr::Float(x) => b.chunk.code@ == a.chunk.code@ + encode(
            Opcode::LoadConst(const_index(a.chunk.constants@, Constant::Float(x))),
        ) && cb.errors@ == ca.errors@,
        Expr::Unit => b.chunk.code@ == a.chunk.code@ + encode(
            Opcode::LoadConst(const_index(a.chunk.constants@, Constant::Nil)),
        ) && cb.errors@ == ca.errors@,
        Expr::Ident(n) => ident_compiled(a, b, ca, cb, n@),
        Expr::Binary { op, lhs, rhs } => op != BinOp::Assign ==> match t {
            CompileTrace::Two(m1, c1, t1, m2, c2, t2) => {
                &&& expr_traced(*lhs, a, m1, ca, c1, *t1)
                &&& expr_traced(*rhs, m1, m2, c1, c2, *t2)
                &&& b.chunk.code@ == m2.chunk.code@ + encode(binary_opcode_of(op))
                &&& cb.errors@ == c2.errors@
            },
            _ => false,
        },
        Expr::Unary { op, expr: inner } => match t {
            CompileTrace::One(m1, c1, t1) => {
                &&& expr_traced(*inner, a, m1, ca, c1, *t1)
                &&& b.chunk.code@ == m1.chunk.code@ + encode(unary_opcode_of(op))
                &&& cb.errors@ == c1.errors@
            },
            _ => false,
        },
        Expr::Field { obj, field } => match t {
            CompileTrace::One(m1, c1, t1) => {
                &&& expr_traced(*obj, a, m1, ca, c1, *t1)
                &&& b.chunk.code@ == m1.chunk.code@ + encode(Opcode::LoadField(field_slot(m1.chunk.field_names@, field@)))
                &&& cb.errors@ == c1.errors@
            },
            _ => false,
        },
        Expr::Index { obj, index } => match t {
            CompileTrace::Two(m1, c1, t1, m2, c2, t2) => {
                &&& expr_traced(*obj, a, m1, ca, c1, *t1)
                &&& expr_traced(*index, m1, m2, c1, c2, *t2)
                &&& b.chunk.code@ == m2.chunk.code@ + encode(Opcode::LoadIndex)
                &&& cb.errors@ == c2.errors@
            },
            _ => false,
        },
        Expr::If { cond, then, else_ } => match t {
            CompileTrace::Branch(m1, c1, t1, a1, m2, c2, t2, a2, m3, c3, t3) => {
                &&& expr_traced(*cond, a, m1, ca, c1, *t1)
                &&& a1.chunk.code@ == m1.chunk.code@ + encode(Opcode::JumpIfFalse(0))
                &&& expr_traced(*then, a1, m2, c1, c2, *t2)
                &&& a2.chunk.code@ == patch_at(m2.chunk.code@ + encode(Opcode::Jump(0)), m1.chunk.code@.len() as int,
                    (m2.chunk.code@.len() + 3) as u16)
                &&& match else_ {
                    Some(e) => expr_traced(*e, a2, m3, c2, c3, *t3),
                    None => m3.chunk.code@ == a2.chunk.code@ + encode(
                        Opcode::LoadConst(const_index(a2.chunk.constants@, Constant::Nil)),
                    ) && c3.errors@ == c2.errors@,
                }
                &&& b.chunk.code@ == patch_at(m3.chunk.code@, m2.chunk.code@.len() as int, m3.chunk.code@.len() as u16)
                &&& cb.errors@ == c3.errors@
            },
            _ => false,
        },
        Expr::Call { func, args } => match t {
            CompileTrace::List(m0, c0, t0, ms, cs, ts) => {
                &&& match (*func, ca.symbols.resolves(name_called(*func))) {
                    (Expr::Ident(_), Some(SymEntry { kind: SymKind::EnumConstructor { tag, .. }, .. })) => {
                        &&& m0 == a && c0 == ca
                        &&& b.chunk.code@ == ms.last().chunk.code@ + encode(Opcode::MakeEnum(tag, args@.len() as u16))
                    },
                    _ => {
                        &&& expr_traced(*func, a, m0, ca, c0, *t0)
                        &&& b.chunk.code@ == ms.last().chunk.code@ + encode(Opcode::Call(args@.len() as u16))
                    },
                }
                &&& ms.len() > 0 && ms[0] == m0 && cs[0] == c0
                &&& exprs_traced(args@, ms, cs, ts)
                &&& cb.errors@ == cs.last().errors@
            },
            _ => false,
        },
        Expr::MethodCall { obj, method, args } => match t {
            CompileTrace::List(m0, c0, t0, ms, cs, ts) => {
                &&& expr_traced(*obj, a, m0, ca, c0, *t0)
                &&& ms.len() > 0 && ms[0] == m0 && cs[0] == c0
                &&& exprs_traced(args@, ms, cs, ts)
                &&& b.chunk.code@ == ms.last().chunk.code@ + encode(
                    Opcode::CallMethod(field_slot(ms.last().chunk.method_names@, method@), args@.len() as u16),
                )
                &&& cb.errors@ == cs.last().errors@
            },
            _ => false,
        },
        Expr::Return(Some(inner)) => match t {
            CompileTrace::One(m1, c1, t1) => {
                &&& expr_traced(*inner, a, m1, ca, c1, *t1)
                &&& b.chunk.code@ == m1.chunk.code@ + encode(Opcode::Return)
                &&& cb.errors@ == c1.errors@
            },
            _ => false,
        },
        Expr::Return(None) => b.chunk.code@ == a.chunk.code@ + encode(
            Opcode::LoadConst(const_index(a.chunk.constants@, Constant::Nil)),
        ) + encode(Opcode::Return) && cb.errors@ == ca.errors@,
        Expr::Range { start, end, .. } => match t {
            CompileTrace::Two(m1, c1, t1, m2, c2, t2) => {
                &&& expr_traced(*start, a, m1, ca, c1, *t1)
                &&& expr_traced(*end, m1, m2, c1, c2, *t2)
                &&& b.chunk.code@ == m2.chunk.code@
                &&& cb.errors@ == c2.errors@
            },
            _ => false,
        },
        Expr::EnumCtor { enum_name, variant_name, args } => match ca.symbols.resolves(enum_name@ + "::"@ + variant_name@) {
            Some(SymEntry { kind: SymKind::EnumConstructor { tag, .. }, .. }) => match t {
                CompileTrace::List(m0, c0, t0, ms, cs, ts) => {
                    &&& ms.len() > 0 && ms[0] == a && cs[0] == ca
                    &&& exprs_traced(args@, ms, cs, ts)
                    &&& b.chunk.code@ == ms.last().chunk.code@ + encode(Opcode::MakeEnum(tag, args@.len() as u16))
                    &&& cb.errors@ == cs.last().errors@
                },
                _ => false,
            },
            _ => {
                &&& b.chunk.code@ == a.chunk.code@
                &&& cb.errors@.len() == ca.errors@.len() + 1
                &&& compile_error_is(cb.errors@.last(), a.current_line,
                    quoted_msg("undefined name "@, enum_name@ + "::"@ + variant_name@))
            },
        },
        Expr::Array(elems) => match t {
            CompileTrace::List(m0, c0, t0, ms, cs, ts) => {
                &&& ms.len() > 0 && ms[0] == a && cs[0] == ca
                &&& exprs_traced(elems@, ms, cs, ts)
                &&& b.chunk.code@ == ms.last().chunk.code@ + encode(Opcode::MakeArray(elems@.len() as u16))
                &&& cb.errors@ == cs.last().errors@
            },
            _ => false,
        },
        _ => true,
    }
}

/// Compiling `e` from `a` and `ca` gives `b` and `cb`, as `expr_traced` says
/// through some intermediate states.
pub open spec fn expr_compiled(e: Expr, a: FunctionCompiler, b: FunctionCompiler, ca: CompileContext, cb: CompileContext) -> bool {
    match e {
        Expr::Binary { .. } | Expr::Unary { .. } | Expr::Field { .. } | Expr::Index { .. } | Expr::If { .. }
        | Expr::Call { .. } | Expr::MethodCall { .. } | Expr::Array(_) | Expr::Return(Some(_)) | Expr::Range { .. }
        | Expr::EnumCtor { .. } =>
            exists|t: CompileTrace| #[trigger] expr_traced(e, a, b, ca, cb, t),
        _ => expr_traced(e, a, b, ca, cb, CompileTrace::Done),
    }
}

/// An expression built from literals with operators, field reads and index
/// reads only: compiling it can report no error.
pub open spec fn expr_clean(e: Expr) -> bool
    decreases e,
{
    match e {
        Expr::Int(_) | Expr::Bool(_) | Expr::Str(_) | Expr::Float(_) | Expr::Unit => true,
        Expr::Binary { op, lhs, rhs } => op != BinOp::Assign && expr_clean(*lhs) && expr_clean(*rhs),
        Expr::Unary { expr: inner, .. } => expr_clean(*inner),
        Expr::Field { obj, .. } => expr_clean(*obj),
        Expr::Index { obj, index } => expr_clean(*obj) && expr_clean(*index),
        _ => false,
    }
}

/// A statement whose compilation at the top level reports no error: an
/// expression statement, a `return`, a `let` or `const` of a clean
/// expression, or a declaration that holds no code.
pub open spec fn stmt_clean(s: Stmt) -> bool {
    match s {
        Stmt::Expr(e) => expr_clean(e),
        Stmt::Return(Some(e)) => expr_clean(e),
        Stmt::Return(None) => true,
        Stmt::Let { init, .. } => match init {
            Some(e) => expr_clean(e),
            None => true,
        },
        Stmt::Const { init, .. } => expr_clean(init),
        Stmt::Struct { .. } | Stmt::Enum { .. } | Stmt::Trait { .. } | Stmt::Use { .. } | Stmt::Type { .. } => true,
        _ => false,
    }
}

/// Every statement is clean.
pub open spec fn program_clean(stmts: Seq<Spanned<Stmt>>) -> bool {
    forall|i: int| 0 <= i < stmts.len() ==> stmt_clean(#[trigger] stmts[i].node)
}

proof fn lemma_clean_traced(e: Expr, a: FunctionCompiler, b: FunctionCompiler, ca: CompileContext, cb: CompileContext, t: CompileTrace)
    requires
        expr_clean(e),
        expr_traced(e, a, b, ca, cb, t),
    ensures
        cb.errors@ == ca.errors@,
    decreases e,
{
    match e {
        Expr::Binary { lhs, rhs, .. } => {
            if let CompileTrace::Two(m1, c1, t1, m2, c2, t2) = t {
                lemma_clean_traced(*lhs, a, m1, ca, c1, *t1);
                lemma_clean_traced(*rhs, m1, m2, c1, c2, *t2);
            }
        },
        Expr::Unary { expr: inner, .. } => {
            if let CompileTrace::One(m1, c1, t1) = t {
                lemma_clean_traced(*inner, a, m1, ca, c1, *t1);
            }
        },
        Expr::Field { obj, .. } => {
            if let CompileTrace::One(m1, c1, t1) = t {
                lemma_clean_traced(*obj, a, m1, ca, c1, *t1);
            }
        },
        Expr::Index { obj, index } => {
            if let CompileTrace::Two(m1, c1, t1, m2, c2, t2) = t {
                lemma_clean_traced(*obj, a, m1, ca, c1, *t1);
                lemma_clean_traced(*index, m1, m2, c1, c2, *t2);
            }
        },
        _ => {},
    }
}

/// Compiling a clean expression reports no error.
pub proof fn lemma_clean_compiles(e: Expr, a: FunctionCompiler, b: FunctionCompiler, ca: CompileContext, cb: CompileContext)
    requires
        expr_clean(e),
        expr_compiled(e, a, b, ca, cb),
    ensures
        cb.errors@ == ca.errors@,
{
    match e {
        Expr::Binary { .. } | Expr::Unary { .. } | Expr::Field { .. } | Expr::Index { .. } => {
            let t = choose|t: CompileTrace| expr_traced(e, a, b, ca, cb, t);
            lemma_clean_traced(e, a, b, ca, cb, t);
        },
        _ => {
            lemma_clean_traced(e, a, b, ca, cb, CompileTrace::Done);
        },
    }
}

/// The instruction that compiling `e` ends with, for the forms that end with
/// one of their own: a call (`Call` with the argument count, or `MakeEnum`
/// for a variant constructor), a method call (`CallMethod` with the method's
/// name-table slot and the argument count), an array (`MakeArray`), a struct
/// literal without a spread (`MakeStruct`), and a `return`.
pub open spec fn ends_as(e: Expr, ca: CompileContext, b: FunctionCompiler) -> bool {
    match e {
        Expr::Call { func, args } => match (*func, ca.symbols.resolves(name_called(*func))) {
            (Expr::Ident(_), Some(SymEntry { kind: SymKind::EnumConstructor { tag, .. }, .. })) => ends_with(
                b.chunk.code@,
                Opcode::MakeEnum(tag, args@.len() as u16),
            ),
            _ => ends_with(b.chunk.code@, Opcode::Call(args@.len() as u16)),
        },
        Expr::MethodCall { method, args, .. } => b.chunk.method_names@.len() <= u16::MAX ==> exists|i: u16|
            #[trigger] ends_with(b.chunk.code@, Opcode::CallMethod(i, args@.len() as u16))
            && (i as int) < b.chunk.method_names@.len() && b.chunk.method_names@[i as int]@ == method@,
        Expr::Array(elems) => ends_with(b.chunk.code@, Opcode::MakeArray(elems@.len() as u16)),
        Expr::StructLit { fields, spread: None, .. } => ends_with(b.chunk.code@, Opcode::MakeStruct(fields@.len() as u16)),
        Expr::Return(_) => ends_with(b.chunk.code@, Opcode::Return),
        _ => true,
    }
}

/// After a name was interned in a table, the slot returned holds it.
proof fn lemma_name_slot(before: Seq<String>, after: Seq<String>, name: Seq<char>, idx: u16)
    requires
        match first_index_of(string_views(before), name) {
            Some(i) => idx == i as u16 && after == before,
            None => idx == before.len() as u16 && string_views(after) == string_views(before).push(name),
        },
        after.len() <= u16::MAX,
    ensures
        (idx as int) < after.len(),
        after[idx as int]@ == name,
{
    match first_index_of(string_views(before), name) {
        Some(i) => {
            let k = choose|k: int| 0 <= k < string_views(before).len() && string_views(before)[k] == name;
            crate::ir::lemma_first_index_found(string_views(before), name, k);
            assert(string_views(before)[i] == before[i]@);
        },
        None => {
            assert(string_views(after).len() == after.len());
            assert(string_views(after)[before.len() as int] == after[before.len() as int]@);
        },
    }
}

proof fn lemma_if_traced(e: Expr, a: FunctionCompiler, b: FunctionCompiler, ca: CompileContext, cb: CompileContext,
    m1: FunctionCompiler, c1: CompileContext, t1: CompileTrace, a1: FunctionCompiler,
    m2: FunctionCompiler, c2: CompileContext, t2: CompileTrace, a2: FunctionCompiler,
    m3: FunctionCompiler, c3: CompileContext, t3: CompileTrace)
    requires
        e matches Expr::If { cond, then, else_ } && {
            &&& expr_traced(*cond, a, m1, ca, c1, t1)
            &&& a1.chunk.code@ == m1.chunk.code@ + encode(Opcode::JumpIfFalse(0))
            &&& expr_traced(*then, a1, m2, c1, c2, t2)
            &&& a2.chunk.code@ == patch_at(m2.chunk.code@ + encode(Opcode::Jump(0)), m1.chunk.code@.len() as int,
                (m2.chunk.code@.len() + 3) as u16)
            &&& match else_ {
                Some(x) => expr_traced(*x, a2, m3, c2, c3, t3),
                None => m3.chunk.code@ == a2.chunk.code@ + encode(
                    Opcode::LoadConst(const_index(a2.chunk.constants@, Constant::Nil)),
                ) && c3.errors@ == c2.errors@,
            }
            &&& b.chunk.code@ == patch_at(m3.chunk.code@, m2.chunk.code@.len() as int, m3.chunk.code@.len() as u16)
            &&& cb.errors@ == c3.errors@
        },
    ensures
        expr_compiled(e, a, b, ca, cb),
{
    assert(expr_traced(e, a, b, ca, cb,
        CompileTrace::Branch(m1, c1, Box::new(t1), a1, m2, c2, Box::new(t2), a2, m3, c3, Box::new(t3))));
}

/// Some trace leads through what `expr_compiled` says.
proof fn lemma_compiled_trace<'a>(e: Expr, a: FunctionCompiler, b: FunctionCompiler, ca: CompileContext<'a>,
    cb: CompileContext<'a>) -> (t: CompileTrace<'a>)
    requires
        expr_compiled(e, a, b, ca, cb),
    ensures
        expr_traced(e, a, b, ca, cb, t),
{
    match e {
        Expr::Binary { .. } | Expr::Unary { .. } | Expr::Field { .. } | Expr::Index { .. } | Expr::If { .. }
        | Expr::Call { .. } | Expr::MethodCall { .. } | Expr::Array(_) | Expr::Return(Some(_)) | Expr::Range { .. }
        | Expr::EnumCtor { .. } => {
            choose|t: CompileTrace| expr_traced(e, a, b, ca, cb, t)
        },
        _ => CompileTrace::Done,
    }
}

proof fn lemma_traced(e: Expr, a: FunctionCompiler, b: FunctionCompiler, ca: CompileContext, cb: CompileContext, t: CompileTrace)
    requires
        expr_traced(e, a, b, ca, cb, t),
    ensures
        expr_compiled(e, a, b, ca, cb),
{
}

/// `b` is what compiling `e` from `a` and then popping its value leaves.
pub open spec fn popped_after(e: Expr, a: FunctionCompiler, b: FunctionCompiler, ca: CompileContext, cb: CompileContext) -> bool {
    exists|q: FunctionCompiler| #[trigger] expr_compiled(e, a, q, ca, cb) && popped(q, b)
}

/// `b` is `q` with a `Pop` appended.
pub open spec fn popped(q: FunctionCompiler, b: FunctionCompiler) -> bool {
    &&& b.chunk.code@ == q.chunk.code@ + encode(Opcode::Pop)
    &&& b.chunk.constants@ == q.chunk.constants@
    &&& b.chunk.field_names@ == q.chunk.field_names@
    &&& b.chunk.method_names@ == q.chunk.method_names@
    &&& b.locals@ == q.locals@
    &&& b.scope_marks@ == q.scope_marks@
}

/// `b` is `a` but for the current line.
pub open spec fn relined(a: FunctionCompiler, b: FunctionCompiler) -> bool {
    &&& b.chunk == a.chunk
    &&& b.locals@ == a.locals@
    &&& b.scope_marks@ == a.scope_marks@
    &&& b.loop_end_jumps@ == a.loop_end_jumps@
}

/// One expression statement of a body, from `a` to `b`: the line is set,
/// then the expression compiles as `expr_compiled` says, and its value is
/// popped unless it is the body's last statement, whose value the body
/// returns.
pub open spec fn body_step(e: Expr, last: bool, a: FunctionCompiler, b: FunctionCompiler, ca: CompileContext, cb: CompileContext) -> bool {
    exists|p: FunctionCompiler| #[trigger] relined(a, p) && if last {
        expr_compiled(e, p, b, ca, cb)
    } else {
        popped_after(e, p, b, ca, cb)
    }
}

/// Compiling the expression statements `es` of a body in turn goes through
/// the states `ms` and `cs`, each statement as `body_step` says.
pub open spec fn body_traced(es: Seq<Expr>, ms: Seq<FunctionCompiler>, cs: Seq<CompileContext>) -> bool {
    &&& ms.len() == es.len() + 1
    &&& cs.len() == es.len() + 1
    &&& forall|i: int| #![trigger es[i]] 0 <= i < es.len() ==> body_step(es[i], i == es.len() - 1, ms[i], ms[i + 1], cs[i], cs[i + 1])
}

/// Every statement is an expression statement.
pub open spec fn all_expr_stmts(stmts: Seq<Spanned<Stmt>>) -> bool {
    forall|k: int| 0 <= k < stmts.len() ==> (#[trigger] stmts[k]).node is Expr
}

/// The expressions of expression statements.
pub open spec fn stmt_exprs(stmts: Seq<Spanned<Stmt>>) -> Seq<Expr> {
    stmts.map_values(|s: Spanned<Stmt>| match s.node {
        Stmt::Expr(e) => e,
        _ => Expr::Unit,
    })
}

/// The code of a body of expression statements compiled from `a` and `ca`
/// into `b` and `cb`: the statements as `body_traced` says, then `nil` when
/// there is no statement, then `Return`.
pub open spec fn body_compiled(stmts: Seq<Spanned<Stmt>>, a: FunctionCompiler, b: FunctionCompiler, ca: CompileContext, cb: CompileContext) -> bool {
    exists|ms: Seq<FunctionCompiler>, cs: Seq<CompileContext>| #[trigger] body_traced(stmt_exprs(stmts), ms, cs)
        && ms[0] == a && cs[0] == ca && cs.last() == cb
        && b.chunk.code@ == ms.last().chunk.code@ + (if stmts.len() == 0 {
            encode(Opcode::LoadConst(const_index(ms.last().chunk.constants@, Constant::Nil)))
        } else {
            Seq::empty()
        }) + encode(Opcode::Return)
}

/// Function `f` is the main function compiled from a fresh compiler for
/// the expression statements `stmts`: its code is as `body_compiled` says,
/// from empty code, constants and name tables and no locals.
pub open spec fn main_compiled(stmts: Seq<Spanned<Stmt>>, f: BytecodeFn<Constant>) -> bool {
    exists|a: FunctionCompiler, b: FunctionCompiler, ca: CompileContext, cb: CompileContext|
        #[trigger] body_compiled(stmts, a, b, ca, cb) && f.chunk == b.chunk && a.chunk.code@.len() == 0
            && a.chunk.constants@.len() == 0 && a.chunk.field_names@.len() == 0 && a.chunk.method_names@.len() == 0
            && a.locals@.len() == 0 && a.scope_marks@.len() == 0
}

/// What compiling statement `s` leaves: a binding as `binding_compiled`
/// says; an expression statement ends with `Pop`, a `return` with
/// `Return`; declarations that hold no code leave all as it was.
pub open spec fn stmt_compiled(a: FunctionCompiler, b: FunctionCompiler, ca: CompileContext, cb: CompileContext, s: Stmt) -> bool {
    &&& (stmt_clean(s) && a.depth() == 0 ==> cb.errors@ == ca.errors@)
    &&& match s {
        Stmt::Let { name, .. } => binding_compiled(a, b, ca, cb, name@),
        Stmt::Const { name, .. } => binding_compiled(a, b, ca, cb, name@),
        Stmt::Expr(e) => {
            &&& ends_with(b.chunk.code@, Opcode::Pop)
            &&& popped_after(e, a, b, ca, cb)
        },
        Stmt::Return(_) => ends_with(b.chunk.code@, Opcode::Return),
        Stmt::Fn { .. } | Stmt::Struct { .. } | Stmt::Enum { .. } | Stmt::Trait { .. } | Stmt::Use { .. }
        | Stmt::Type { .. } => b == a && cb == ca,
        _ => true,
    }
}

/// The global slot list grown by `name` when it had no slot.
proof fn lemma_global_slot_push(g: Seq<String>, x: String)
    requires
        global_slot(g, x@) is None,
    ensures
        global_slot(g.push(x), x@) == Some(g.len() as u16),
{
    let v = string_views(g.push(x));
    assert(v[g.len() as int] == x@);
    assert forall|j: int| 0 <= j < g.len() implies v[j] != x@ by {
        assert(v[j] == string_views(g)[j]);
    }
}

impl FunctionCompiler {
    /// `b` follows `self` after a statement: locals added only in the current
    /// scope.
    pub open spec fn stmt_kept(self, b: Self) -> bool {
        &&& self.kept(b)
        &&& b.scope_marks@ == self.scope_marks@
        &&& is_prefix(self.locals@, b.locals@)
        &&& forall|i: int| self.locals@.len() <= i < b.locals@.len() ==> (#[trigger] b.locals@[i]).depth == self.depth()
    }

    /// Store the value on top of the stack into `name`: a global at the top
    /// level (given a new slot when it has none), else a new local.
    fn bind(&mut self, ctx: &mut CompileContext, name: &String)
        requires
            old(self).wf(),
            old(ctx).wf(),
        ensures
            old(self).stmt_kept(*final(self)),
            old(ctx).kept(*final(ctx)),
            final(ctx).errors@ == old(ctx).errors@,
            old(self).depth() == 0 ==> (global_slot(final(ctx).globals@, name@) matches Some(g)
                && final(self).chunk.code@ == old(self).chunk.code@ + encode(Opcode::StoreGlobal(g))
                && final(self).locals@ == old(self).locals@),
            old(self).depth() > 0 ==> final(self).chunk.code@ == old(self).chunk.code@ + encode(
                Opcode::StoreLocal(old(self).chunk.locals as u16),
            ) && final(self).locals@.len() == old(self).locals@.len() + 1
                && final(self).locals@.drop_last() == old(self).locals@ && final(self).locals@.last().name@ == name@
                && final(self).locals@.last().slot == old(self).chunk.locals as u16,
    {
        proof {
            lemma_follows_refl(*self);
        }
        if self.scope_marks.len() == 0 {
            match self.resolve_global(ctx, name.as_str()) {
                Some(idx) => self.emit_op(Opcode::StoreGlobal(idx)),
                None => {
                    #[verifier::truncate]
                    let idx = ctx.globals.len() as u16;
                    let copy = name.clone();
                    proof {
                        lemma_global_slot_push(ctx.globals@, copy);
                    }
                    ctx.globals.push(copy);
                    self.emit_op(Opcode::StoreGlobal(idx));
                },
            }
        } else {
            let slot = self.add_local(name.as_str());
            self.emit_op(Opcode::StoreLocal(slot));
        }
    }

    /// Compile a `let` or `const` statement.
    #[verifier::rlimit(40)]
    fn compile_binding(&mut self, ctx: &mut CompileContext, stmt: &Stmt)
        requires
            old(self).wf(),
            old(ctx).wf(),
            stmt is Let || stmt is Const,
        ensures
            old(self).stmt_kept(*final(self)),
            old(ctx).kept(*final(ctx)),
            stmt_compiled(*old(self), *final(self), *old(ctx), *final(ctx), *stmt),
        decreases stmt, 0nat,
    {
        proof {
            lemma_follows_refl(*self);
        }
        match stmt {
            Stmt::Let { name, init, .. } => {
                if self.scope_marks.len() > 0 && self.resolve_local(name.as_str()).is_some() {
                    let msg = quoted("variable ", name.as_str());
                    let mut m = msg;
                    push_str_chars(&mut m, " already defined");
                    self.error(ctx, m);
                    return;
                }
                let ghost (s0, c0) = (*self, *ctx);
                match init {
                    Some(e) => {
                        self.compile_expr(ctx, e);
                        proof {
                            if expr_clean(*e) {
                                lemma_clean_compiles(*e, s0, *self, c0, *ctx);
                            }
                        }
                    },
                    None => self.none(),
                }
                let ghost mid = *self;
                self.bind(ctx, name);
                proof {
                    lemma_ends_with(mid.chunk.code@, Opcode::StoreLocal(mid.chunk.locals as u16));
                    if mid.depth() == 0 {
                        let g = global_slot(ctx.globals@, name@)->0;
                        lemma_ends_with(mid.chunk.code@, Opcode::StoreGlobal(g));
                    }
                }
            },
            Stmt::Const { name, init, .. } => {
                if self.scope_marks.len() > 0 && self.resolve_local(name.as_str()).is_some() {
                    let msg = quoted("variable ", name.as_str());
                    let mut m = msg;
                    push_str_chars(&mut m, " already defined");
                    self.error(ctx, m);
                    return;
                }
                let ghost (s0, c0) = (*self, *ctx);
                self.compile_expr(ctx, init);
                proof {
                    if expr_clean(*init) {
                        lemma_clean_compiles(*init, s0, *self, c0, *ctx);
                    }
                }
                let ghost mid = *self;
                self.bind(ctx, name);
                proof {
                    lemma_ends_with(mid.chunk.code@, Opcode::StoreLocal(mid.chunk.locals as u16));
                    if mid.depth() == 0 {
                        let g = global_slot(ctx.globals@, name@)->0;
                        lemma_ends_with(mid.chunk.code@, Opcode::StoreGlobal(g));
                    }
                }
            },
            _ => {},
        }
    }

    /// Compile a statement.
    pub fn compile_stmt(&mut self, ctx: &mut CompileContext, stmt: &Stmt)
        requires
            old(self).wf(),
            old(ctx).wf(),
        ensures
            old(self).stmt_kept(*final(self)),
            old(ctx).kept(*final(ctx)),
            stmt_compiled(*old(self), *final(self), *old(ctx), *final(ctx), *stmt),
        decreases stmt, 1nat,
    {
        proof {
            lemma_follows_refl(*self);
        }
        match stmt {
            Stmt::Let { .. } => self.compile_binding(ctx, stmt),
            Stmt::Const { .. } => self.compile_binding(ctx, stmt),
            Stmt::Expr(e) => {
                let ghost (s0, c0) = (*self, *ctx);
                self.compile_expr(ctx, e);
                let ghost (s1, c1) = (*self, *ctx);
                let ghost mid = self.chunk.code@;
                self.emit_op(Opcode::Pop);
                proof {
                    lemma_ends_with(mid, Opcode::Pop);
                    assert(popped(s1, *self));
                    assert(popped_after(*e, s0, *self, c0, *ctx));
                    if expr_clean(*e) {
                        lemma_clean_compiles(*e, s0, s1, c0, c1);
                    }
                }
            },
            Stmt::Return(Some(e)) => {
                let ghost (s0, c0) = (*self, *ctx);
                self.compile_expr(ctx, e);
                let ghost (s1, c1) = (*self, *ctx);
                let ghost mid = self.chunk.code@;
                self.emit_op(Opcode::Return);
                proof {
                    lemma_ends_with(mid, Opcode::Return);
                    if expr_clean(*e) {
                        lemma_clean_compiles(*e, s0, s1, c0, c1);
                    }
                }
            },
            Stmt::Return(None) => {
                self.none();
                let ghost mid = self.chunk.code@;
                self.emit_op(Opcode::Return);
                proof {
                    lemma_ends_with(mid, Opcode::Return);
                }
            },
            Stmt::Impl { methods, .. } => self.compile_stmt_list(ctx, methods),
            Stmt::Mod { body, .. } => self.compile_stmt_list(ctx, body),
            _ => {},
        }
    }

    /// Compile each statement of a list in turn.
    fn compile_stmt_list(&mut self, ctx: &mut CompileContext, stmts: &Vec<Spanned<Stmt>>)
        requires
            old(self).wf(),
            old(ctx).wf(),
        ensures
            old(self).stmt_kept(*final(self)),
            old(ctx).kept(*final(ctx)),
            stmts@.len() > 0 && stmts@.last().node is Expr ==> ends_with(final(self).chunk.code@, Opcode::Pop),
            stmts@.len() > 0 && stmts@.last().node is Return ==> ends_with(final(self).chunk.code@, Opcode::Return),
        decreases stmts, 0nat,
    {
        proof {
            lemma_follows_refl(*self);
        }
        let mut k: usize = 0;
        while k < stmts.len()
            invariant
                k <= stmts@.len(),
                old(self).stmt_kept(*self),
                old(ctx).kept(*ctx),
                k > 0 && stmts@[k - 1].node is Expr ==> ends_with(self.chunk.code@, Opcode::Pop),
                k > 0 && stmts@[k - 1].node is Return ==> ends_with(self.chunk.code@, Opcode::Return),
            decreases stmts@.len() - k,
        {
            proof {
                assert(decreases_to!(stmts => stmts@[k as int].node));
            }
            self.compile_stmt(ctx, &stmts[k].node);
            k = k + 1;
        }
    }

    /// Compile the statements of a block; a final expression statement leaves
    /// its value.
    fn compile_block_body(&mut self, ctx: &mut CompileContext, stmts: &Vec<Spanned<Stmt>>)
        requires
            old(self).wf(),
            old(ctx).wf(),
        ensures
            old(self).stmt_kept(*final(self)),
            old(ctx).kept(*final(ctx)),
            stmts@.len() > 0 && stmts@.last().node is Return ==> ends_with(final(self).chunk.code@, Opcode::Return),
        decreases stmts, 0nat,
    {
        proof {
            lemma_follows_refl(*self);
        }
        let count = stmts.len();
        let mut k: usize = 0;
        while k < count
            invariant
                count == stmts@.len(),
                k <= count,
                old(self).stmt_kept(*self),
                old(ctx).kept(*ctx),
                k > 0 && stmts@[k - 1].node is Return ==> ends_with(self.chunk.code@, Opcode::Return),
            decreases count - k,
        {
            proof {
                assert(decreases_to!(stmts => stmts@[k as int].node));
            }
            match &stmts[k].node {
                Stmt::Expr(e) => {
                    if k + 1 == count {
                        self.compile_expr(ctx, e);
                    } else {
                        self.compile_stmt(ctx, &stmts[k].node);
                    }
                },
                _ => self.compile_stmt(ctx, &stmts[k].node),
            }
            k = k + 1;
        }
    }

    /// Compile each expression of a list in turn.
    fn compile_exprs(&mut self, ctx: &mut CompileContext, v: &Vec<Expr>)
        requires
            old(self).wf(),
            old(ctx).wf(),
        ensures
            old(self).balanced(*final(self)),
            old(ctx).kept(*final(ctx)),
            exprs_compiled(v@, *old(self), *final(self), *old(ctx), *final(ctx)),
        decreases v, 0nat,
    {
        proof {
            lemma_follows_refl(*self);
        }
        let ghost mut ms: Seq<FunctionCompiler> = seq![*self];
        let ghost mut cs: Seq<CompileContext> = seq![*ctx];
        let ghost mut ts: Seq<CompileTrace> = Seq::empty();
        proof {
            assert(v@.take(0) =~= Seq::<Expr>::empty());
        }
        let mut k: usize = 0;
        while k < v.len()
            invariant
                k <= v@.len(),
                old(self).balanced(*self),
                old(ctx).kept(*ctx),
                exprs_traced(v@.take(k as int), ms, cs, ts),
                ms[0] == *old(self),
                cs[0] == *old(ctx),
                ms.last() == *self,
                cs.last() == *ctx,
            decreases v@.len() - k,
        {
            proof {
                assert(decreases_to!(v => v@[k as int]));
            }
            let ghost (s0, c0) = (*self, *ctx);
            self.compile_expr(ctx, &v[k]);
            proof {
                let t = lemma_compiled_trace(v@[k as int], s0, *self, c0, *ctx);
                let ms2 = ms.push(*self);
                let cs2 = cs.push(*ctx);
                let ts2 = ts.push(t);
                let es = v@.take(k as int + 1);
                assert(es.drop_last() =~= v@.take(k as int));
                assert(ms2.drop_last() =~= ms);
                assert(cs2.drop_last() =~= cs);
                assert(ts2.drop_last() =~= ts);
                assert(es.last() == v@[k as int]);
                assert(exprs_traced(es, ms2, cs2, ts2));
                ms = ms2;
                cs = cs2;
                ts = ts2;
            }
            k = k + 1;
        }
        proof {
            assert(v@.take(v@.len() as int) =~= v@);
        }
    }

    /// Compile an expression; it leaves its value on the stack.
    #[verifier::rlimit(80)]
    pub fn compile_expr(&mut self, ctx: &mut CompileContext, expr: &Expr)
        requires
            old(self).wf(),
            old(ctx).wf(),
        ensures
            old(self).balanced(*final(self)),
            old(ctx).kept(*final(ctx)),
            match *expr {
                Expr::Int(n) => final(self).chunk.code@ == old(self).chunk.code@ + encode(
                    Opcode::LoadConst(const_index(old(self).chunk.constants@, Constant::Int(n))),
                ),
                Expr::Bool(b) => final(self).chunk.code@ == old(self).chunk.code@ + encode(
                    Opcode::LoadConst(const_index(old(self).chunk.constants@, Constant::Bool(b))),
                ),
                Expr::Str(t) => final(self).chunk.code@ == old(self).chunk.code@ + encode(
                    Opcode::LoadConst(const_index(old(self).chunk.constants@, Constant::Str(t))),
                ),
                Expr::Float(t) => final(self).chunk.code@ == old(self).chunk.code@ + encode(
                    Opcode::LoadConst(const_index(old(self).chunk.constants@, Constant::Float(t))),
                ),
                Expr::Unit => final(self).chunk.code@ == old(self).chunk.code@ + encode(
                    Opcode::LoadConst(const_index(old(self).chunk.constants@, Constant::Nil)),
                ),
                Expr::Ident(n) => ident_compiled(*old(self), *final(self), *old(ctx), *final(ctx), n@),
                _ => true,
            },
            expr_compiled(*expr, *old(self), *final(self), *old(ctx), *final(ctx)),
            ends_as(*expr, *old(ctx), *final(self)),
        decreases expr, 2nat,
    {
        proof {
            lemma_follows_refl(*self);
        }
        match expr {
            Expr::Int(n) => {
                self.load_const(Constant::Int(*n));
            },
            Expr::Float(t) => {
                self.load_const(Constant::Float(t.clone()));
            },
            Expr::Str(t) => {
                self.load_const(Constant::Str(t.clone()));
            },
            Expr::Bool(b) => {
                self.load_const(Constant::Bool(*b));
            },
            Expr::Unit => {
                self.none();
            },
            Expr::Ident(name) => {
                self.compile_ident(ctx, name);
            },
            Expr::Binary { op, lhs, rhs } => {
                if *op == BinOp::Assign {
                    self.compile_assignment(ctx, expr);
                    proof {
                        lemma_traced(*expr, *old(self), *self, *old(ctx), *ctx, CompileTrace::Done);
                    }
                } else {
                    let ghost (s0, c0) = (*self, *ctx);
                    self.compile_expr(ctx, lhs);
                    let ghost (s1, c1) = (*self, *ctx);
                    self.compile_expr(ctx, rhs);
                    let ghost (s2, c2) = (*self, *ctx);
                    self.emit_binary_op(*op);
                    proof {
                        let t1 = choose|t: CompileTrace| expr_traced(**lhs, s0, s1, c0, c1, t);
                        let t2 = choose|t: CompileTrace| expr_traced(**rhs, s1, s2, c1, c2, t);
                        lemma_traced(*expr, *old(self), *self, *old(ctx), *ctx,
                            CompileTrace::Two(s1, c1, Box::new(t1), s2, c2, Box::new(t2)));
                    }
                }
            },
            Expr::Unary { op, expr: inner } => {
                let ghost (s0, c0) = (*self, *ctx);
                self.compile_expr(ctx, inner);
                let ghost (s1, c1) = (*self, *ctx);
                match op {
                    UnOp::Neg => self.emit_op(Opcode::Neg),
                    UnOp::Not => self.emit_op(Opcode::Not),
                    UnOp::BitNot => self.emit_op(Opcode::BitNot),
                }
                proof {
                    let t1 = choose|t: CompileTrace| expr_traced(**inner, s0, s1, c0, c1, t);
                    lemma_traced(*expr, *old(self), *self, *old(ctx), *ctx, CompileTrace::One(s1, c1, Box::new(t1)));
                }
            },
            Expr::Call { func, args } => self.compile_call(ctx, expr),
            Expr::MethodCall { obj, method, args } => {
                let ghost (s0, c0) = (*self, *ctx);
                self.compile_expr(ctx, obj);
                let ghost (s1, c1) = (*self, *ctx);
                self.compile_exprs(ctx, args);
                let ghost (s2, c2) = (*self, *ctx);
                let ghost names0 = self.chunk.method_names@;
                let idx = self.chunk.add_method_name(method.as_str());
                #[verifier::truncate]
                let n = args.len() as u16;
                let ghost mid = self.chunk.code@;
                proof {
                    if self.chunk.method_names@.len() <= u16::MAX {
                        lemma_name_slot(names0, self.chunk.method_names@, method@, idx);
                    }
                }
                self.emit_op(Opcode::CallMethod(idx, n));
                proof {
                    lemma_ends_with(mid, Opcode::CallMethod(idx, n));
                    let t1 = lemma_compiled_trace(**obj, s0, s1, c0, c1);
                    let (ms, cs, ts) = choose|ms: Seq<FunctionCompiler>, cs: Seq<CompileContext>, ts: Seq<CompileTrace>|
                        #[trigger] exprs_traced(args@, ms, cs, ts) && ms[0] == s1 && cs[0] == c1 && ms.last() == s2
                            && cs.last() == c2;
                    assert(idx == field_slot(s2.chunk.method_names@, method@));
                    lemma_traced(*expr, *old(self), *self, *old(ctx), *ctx,
                        CompileTrace::List(s1, c1, Box::new(t1), ms, cs, ts));
                }
            },
            Expr::Field { obj, field } => {
                let ghost (s0, c0) = (*self, *ctx);
                self.compile_expr(ctx, obj);
                let ghost (s1, c1) = (*self, *ctx);
                let idx = self.chunk.add_field_name(field.as_str());
                self.emit_op(Opcode::LoadField(idx));
                proof {
                    let t1 = choose|t: CompileTrace| expr_traced(**obj, s0, s1, c0, c1, t);
                    lemma_traced(*expr, *old(self), *self, *old(ctx), *ctx, CompileTrace::One(s1, c1, Box::new(t1)));
                }
            },
            Expr::Index { obj, index } => {
                let ghost (s0, c0) = (*self, *ctx);
                self.compile_expr(ctx, obj);
                let ghost (s1, c1) = (*self, *ctx);
                self.compile_expr(ctx, index);
                let ghost (s2, c2) = (*self, *ctx);
                self.emit_op(Opcode::LoadIndex);
                proof {
                    let t1 = choose|t: CompileTrace| expr_traced(**obj, s0, s1, c0, c1, t);
                    let t2 = choose|t: CompileTrace| expr_traced(**index, s1, s2, c1, c2, t);
                    lemma_traced(*expr, *old(self), *self, *old(ctx), *ctx,
                        CompileTrace::Two(s1, c1, Box::new(t1), s2, c2, Box::new(t2)));
                }
            },
            Expr::Block(stmts) => {
                self.enter_scope();
                let ghost entered = *self;
                self.compile_block_body(ctx, stmts);
                let ghost body_done = *self;
                self.exit_scope();
                proof {
                    let n = entered.locals@.len();
                    let m = self.locals@.len();
                    assert(entered.locals@ == old(self).locals@);
                    if m < n {
                        assert(body_done.locals@[m as int] == entered.locals@[m as int]);
                        assert(entered.locals@[m as int].depth <= old(self).depth());
                    }
                    if m > n {
                        assert(self.locals@[n as int] == body_done.locals@[n as int]);
                        assert(body_done.locals@[n as int].depth == entered.depth());
                    }
                    assert(self.locals@ =~= old(self).locals@);
                    assert(self.scope_marks@ =~= old(self).scope_marks@);
                }
            },
            Expr::If { cond, then, else_ } => {
                let ghost (s0, c0) = (*self, *ctx);
                self.compile_expr(ctx, cond);
                let ghost (s1, c1) = (*self, *ctx);
                let else_jump = self.current_offset();
                self.emit_op(Opcode::JumpIfFalse(0));
                let ghost a1 = *self;
                self.compile_expr(ctx, then);
                let ghost (s2, c2) = (*self, *ctx);
                let end_jump = self.current_offset();
                self.emit_op(Opcode::Jump(0));
                let ghost before = *self;
                self.patch_jump(else_jump);
                proof {
                    lemma_follows_trans(*old(self), before, *self, old(self).chunk.code@.len(), (else_jump + 1) as nat);
                }
                let ghost a2 = *self;
                match else_ {
                    Some(e) => self.compile_expr(ctx, e),
                    None => self.none(),
                }
                let ghost (s3, c3) = (*self, *ctx);
                let ghost before2 = *self;
                self.patch_jump(end_jump);
                proof {
                    lemma_follows_trans(*old(self), before2, *self, old(self).chunk.code@.len(), (end_jump + 1) as nat);
                    let t1 = choose|t: CompileTrace| expr_traced(**cond, s0, s1, c0, c1, t);
                    let t2 = choose|t: CompileTrace| expr_traced(**then, a1, s2, c1, c2, t);
                    let t3 = match else_ {
                        Some(e) => choose|t: CompileTrace| expr_traced(**e, a2, s3, c2, c3, t),
                        None => CompileTrace::Done,
                    };
                    crate::ir::lemma_operand_bytes_len(Opcode::Jump(0).operands());
                    assert(encode(Opcode::Jump(0)).len() == 3);
                    assert(before.chunk.code@ == s2.chunk.code@ + encode(Opcode::Jump(0)));
                    assert(a2.chunk.code@ == patch_at(s2.chunk.code@ + encode(Opcode::Jump(0)), s1.chunk.code@.len() as int,
                        (s2.chunk.code@.len() + 3) as u16));
                    assert(self.chunk.code@ == patch_at(s3.chunk.code@, s2.chunk.code@.len() as int, s3.chunk.code@.len() as u16));
                    lemma_if_traced(*expr, *old(self), *self, *old(ctx), *ctx, s1, c1, t1, a1, s2, c2, t2, a2, s3, c3, t3);
                }
            },
            Expr::Break => {
                let n = self.loop_end_jumps.len();
                if n > 0 {
                    let j = self.current_offset();
                    self.emit_op(Opcode::Jump(0));
                    let mut last = self.loop_end_jumps.pop().unwrap();
                    last.push(j);
                    self.loop_end_jumps.push(last);
                    proof {
                        assert(self.loop_end_jumps@.drop_last() =~= old(self).loop_end_jumps@.drop_last());
                        assert forall|i: int, k: int| 0 <= i < self.loop_end_jumps@.len() && 0 <= k < self.loop_end_jumps@[i]@.len()
                            implies #[trigger] self.loop_end_jumps@[i]@[k] + 2 < self.chunk.code@.len() by {
                            if i < n - 1 {
                                assert(self.loop_end_jumps@[i] == old(self).loop_end_jumps@[i]);
                            } else if k < last@.len() - 1 {
                                assert(self.loop_end_jumps@[i]@[k] == old(self).loop_end_jumps@[i]@[k]);
                            }
                        }
                    }
                }
            },
            Expr::Continue => {
                let n = self.loop_continue.len();
                if n > 0 {
                    #[verifier::truncate]
                    let start = self.loop_continue[n - 1] as u16;
                    self.emit_op(Opcode::Loop(start));
                }
            },
            Expr::Return(Some(inner)) => {
                let ghost (s0, c0) = (*self, *ctx);
                self.compile_expr(ctx, inner);
                let ghost (s1, c1) = (*self, *ctx);
                let ghost mid = self.chunk.code@;
                self.emit_op(Opcode::Return);
                proof {
                    lemma_ends_with(mid, Opcode::Return);
                    let t1 = lemma_compiled_trace(**inner, s0, s1, c0, c1);
                    lemma_traced(*expr, *old(self), *self, *old(ctx), *ctx, CompileTrace::One(s1, c1, Box::new(t1)));
                }
            },
            Expr::Return(None) => {
                self.none();
                let ghost mid = self.chunk.code@;
                self.emit_op(Opcode::Return);
                proof {
                    lemma_ends_with(mid, Opcode::Return);
                }
            },
            Expr::Yield(_) => {
                let msg = String::from_str("yield cannot be compiled");
                self.error(ctx, msg);
            },
            Expr::Array(elems) => {
                self.compile_exprs(ctx, elems);
                let ghost (s2, c2) = (*self, *ctx);
                #[verifier::truncate]
                let n = elems.len() as u16;
                let ghost mid = self.chunk.code@;
                self.emit_op(Opcode::MakeArray(n));
                proof {
                    lemma_ends_with(mid, Opcode::MakeArray(n));
                    let (ms, cs, ts) = choose|ms: Seq<FunctionCompiler>, cs: Seq<CompileContext>, ts: Seq<CompileTrace>|
                        #[trigger] exprs_traced(elems@, ms, cs, ts) && ms[0] == *old(self) && cs[0] == *old(ctx)
                            && ms.last() == s2 && cs.last() == c2;
                    lemma_traced(*expr, *old(self), *self, *old(ctx), *ctx,
                        CompileTrace::List(*old(self), *old(ctx), Box::new(CompileTrace::Done), ms, cs, ts));
                }
            },
            Expr::Range { start, end, .. } => {
                let ghost (s0, c0) = (*self, *ctx);
                self.compile_expr(ctx, start);
                let ghost (s1, c1) = (*self, *ctx);
                self.compile_expr(ctx, end);
                proof {
                    let t1 = lemma_compiled_trace(**start, s0, s1, c0, c1);
                    let t2 = lemma_compiled_trace(**end, s1, *self, c1, *ctx);
                    lemma_traced(*expr, *old(self), *self, *old(ctx), *ctx,
                        CompileTrace::Two(s1, c1, Box::new(t1), *self, *ctx, Box::new(t2)));
                }
            },
            Expr::While { cond, body } => {
                let start = self.current_offset();
                self.compile_expr(ctx, cond);
                let exit = self.current_offset();
                self.emit_op(Opcode::JumpIfFalse(0));
                let mut exits: Vec<usize> = Vec::new();
                exits.push(exit);
                let jumps = self.compile_loop_body(ctx, body, start, exits, Ghost(start as nat));
                #[verifier::truncate]
                let back = start as u16;
                self.emit_op(Opcode::Loop(back));
                let ghost before = *self;
                self.patch_all(&jumps, Ghost(start as nat));
                proof {
                    lemma_follows_trans(*old(self), before, *self, start as nat, start as nat);
                }
                self.none();
            },
            Expr::Loop(body) => {
                let start = self.current_offset();
                let exits: Vec<usize> = Vec::new();
                let jumps = self.compile_loop_body(ctx, body, start, exits, Ghost(start as nat));
                #[verifier::truncate]
                let back = start as u16;
                self.emit_op(Opcode::Loop(back));
                let ghost before = *self;
                self.patch_all(&jumps, Ghost(start as nat));
                proof {
                    lemma_follows_trans(*old(self), before, *self, start as nat, start as nat);
                }
                self.none();
            },
            Expr::For { .. } => self.compile_for(ctx, expr),
            Expr::Match { .. } => self.compile_match(ctx, expr),
            Expr::StructLit { name, fields, spread } => {
                match spread {
                    Some(base) => {
                        self.compile_expr(ctx, base);
                        self.compile_fields(ctx, fields, true);
                    },
                    None => {
                        self.load_const(Constant::Str(name.clone()));
                        self.compile_fields(ctx, fields, false);
                        #[verifier::truncate]
                        let n = fields.len() as u16;
                        let ghost mid = self.chunk.code@;
                        self.emit_op(Opcode::MakeStruct(n));
                        proof {
                            lemma_ends_with(mid, Opcode::MakeStruct(n));
                        }
                    },
                }
            },
            Expr::EnumCtor { enum_name, variant_name, args } => {
                let mut qualified = enum_name.clone();
                push_str_chars(&mut qualified, "::");
                push_str_chars(&mut qualified, variant_name.as_str());
                match ctx.symbols.lookup(qualified.as_str()) {
                    Some(entry) => match &entry.kind {
                        SymKind::EnumConstructor { tag, .. } => {
                            let t = *tag;
                            self.compile_exprs(ctx, args);
                            let ghost (s2, c2) = (*self, *ctx);
                            #[verifier::truncate]
                            let n = args.len() as u16;
                            self.emit_op(Opcode::MakeEnum(t, n));
                            proof {
                                let (ms, cs, ts) = choose|ms: Seq<FunctionCompiler>, cs: Seq<CompileContext>,
                                    ts: Seq<CompileTrace>| #[trigger] exprs_traced(args@, ms, cs, ts)
                                    && ms[0] == *old(self) && cs[0] == *old(ctx) && ms.last() == s2 && cs.last() == c2;
                                lemma_traced(*expr, *old(self), *self, *old(ctx), *ctx,
                                    CompileTrace::List(*old(self), *old(ctx), Box::new(CompileTrace::Done), ms, cs, ts));
                            }
                            return;
                        },
                        _ => {},
                    },
                    None => {},
                }
                let msg = quoted("undefined name ", qualified.as_str());
                self.error(ctx, msg);
                proof {
                    lemma_traced(*expr, *old(self), *self, *old(ctx), *ctx, CompileTrace::Done);
                }
            },
            Expr::Lambda { .. } => self.compile_lambda(ctx, expr),
        }
    }

    /// Compile a loop body inside a loop that starts at `start`, whose exit
    /// jumps so far are `exits`; returns all the exit jumps, the body's
    /// `break`s included.
    fn compile_loop_body(
        &mut self,
        ctx: &mut CompileContext,
        body: &Expr,
        start: usize,
        exits: Vec<usize>,
        Ghost(region): Ghost<nat>,
    ) -> (jumps: Vec<usize>)
        requires
            old(self).wf(),
            old(ctx).wf(),
            region <= old(self).chunk.code@.len(),
            forall|k: int| 0 <= k < exits@.len() ==> region <= #[trigger] exits@[k] && exits@[k] + 2 < old(self).chunk.code@.len(),
        ensures
            old(self).balanced(*final(self)),
            old(ctx).kept(*final(ctx)),
            forall|k: int| 0 <= k < jumps@.len() ==> region <= #[trigger] jumps@[k] && jumps@[k] + 2 < final(self).chunk.code@.len(),
            is_prefix(exits@, jumps@),
        decreases body, 3nat,
    {
        let ghost s0 = *self;
        self.loop_start.push(start);
        self.loop_continue.push(start);
        self.loop_end_jumps.push(exits);
        let ghost pushed = *self;
        proof {
            lemma_follows_refl(*self);
        }
        self.compile_expr(ctx, body);
        let ghost done = *self;
        self.loop_start.pop();
        self.loop_continue.pop();
        let jumps = self.loop_end_jumps.pop().unwrap();
        proof {
            let n = pushed.loop_end_jumps@.len();
            assert(self.loop_start@ =~= s0.loop_start@);
            assert(self.loop_continue@ =~= s0.loop_continue@);
            assert(jumps == done.loop_end_jumps@[n - 1]);
            assert forall|i: int| 0 <= i < self.loop_end_jumps@.len() implies self.loop_end_jumps@[i]@ == s0.loop_end_jumps@[i]@ by {
                assert(self.loop_end_jumps@[i] == done.loop_end_jumps@[i]);
                assert(pushed.loop_end_jumps@[i] == s0.loop_end_jumps@[i]);
            }
            assert forall|k: int| 0 <= k < jumps@.len() implies region <= #[trigger] jumps@[k] && jumps@[k] + 2 < self.chunk.code@.len() by {
                assert(done.loop_end_jumps@[n - 1]@[k] + 2 < done.chunk.code@.len());
                if k < exits@.len() {
                    assert(jumps@[k] == exits@[k]);
                }
            }
            assert forall|i: int, k: int| 0 <= i < self.loop_end_jumps@.len() && 0 <= k < self.loop_end_jumps@[i]@.len()
                implies #[trigger] self.loop_end_jumps@[i]@[k] + 2 < self.chunk.code@.len() by {
                assert(self.loop_end_jumps@[i] == done.loop_end_jumps@[i]);
            }
            lemma_jumps_kept_refl(self.loop_end_jumps@, s0.chunk.code@.len());
            assert(jumps_kept(s0.loop_end_jumps@, self.loop_end_jumps@, s0.chunk.code@.len()));
        }
        jumps
    }

    /// Point each jump of `jumps` at the current offset.
    fn patch_all(&mut self, jumps: &Vec<usize>, Ghost(region): Ghost<nat>)
        requires
            old(self).wf(),
            region <= old(self).chunk.code@.len(),
            forall|k: int| 0 <= k < jumps@.len() ==> region <= #[trigger] jumps@[k] && jumps@[k] + 2 < old(self).chunk.code@.len(),
        ensures
            old(self).follows(*final(self), region),
            final(self).chunk.code@.len() == old(self).chunk.code@.len(),
            final(self).chunk.code@ == patched(old(self).chunk.code@, jumps@, old(self).chunk.code@.len() as u16),
            final(self).locals@ == old(self).locals@,
            final(self).scope_marks@ == old(self).scope_marks@,
            final(self).loop_end_jumps@ == old(self).loop_end_jumps@,
    {
        proof {
            lemma_follows_refl(*self);
            lemma_follows_weaken(*self, *self, region, self.chunk.code@.len());
            assert(jumps@.take(0).len() == 0);
        }
        let mut k: usize = 0;
        while k < jumps.len()
            invariant
                k <= jumps@.len(),
                region <= old(self).chunk.code@.len(),
                forall|k: int| 0 <= k < jumps@.len() ==> region <= #[trigger] jumps@[k] && jumps@[k] + 2 < old(self).chunk.code@.len(),
                old(self).follows(*self, region),
                self.chunk.code@.len() == old(self).chunk.code@.len(),
                self.locals@ == old(self).locals@,
                self.scope_marks@ == old(self).scope_marks@,
                self.loop_end_jumps@ == old(self).loop_end_jumps@,
                self.chunk.code@ == patched(old(self).chunk.code@, jumps@.take(k as int), old(self).chunk.code@.len() as u16),
            decreases jumps@.len() - k,
        {
            let ghost before = *self;
            let j = jumps[k];
            proof {
                assert(jumps@.take(k + 1).drop_last() =~= jumps@.take(k as int));
                assert(jumps@.take(k + 1).last() == j);
            }
            self.patch_jump(j);
            proof {
                lemma_follows_trans(*old(self), before, *self, region, (j + 1) as nat);
            }
            k = k + 1;
        }
        proof {
            assert(jumps@.take(jumps@.len() as int) =~= jumps@);
        }
    }

    /// Compile the field values of a struct literal, each after its name as a
    /// constant; with `store`, store each value into the field instead.
    fn compile_fields(&mut self, ctx: &mut CompileContext, fields: &Vec<(String, Expr)>, store: bool)
        requires
            old(self).wf(),
            old(ctx).wf(),
        ensures
            old(self).balanced(*final(self)),
            old(ctx).kept(*final(ctx)),
            store && fields@.len() > 0 ==> exists|i: u16| #[trigger] ends_with(final(self).chunk.code@, Opcode::StoreField(i)),
            !store && fields@.len() > 0 ==> final(self).chunk.code@.len() > old(self).chunk.code@.len(),
        decreases fields, 0nat,
    {
        proof {
            lemma_follows_refl(*self);
        }
        let mut k: usize = 0;
        while k < fields.len()
            invariant
                k <= fields@.len(),
                old(self).balanced(*self),
                old(ctx).kept(*ctx),
                store && k > 0 ==> exists|i: u16| #[trigger] ends_with(self.chunk.code@, Opcode::StoreField(i)),
                !store && k > 0 ==> self.chunk.code@.len() > old(self).chunk.code@.len(),
            decreases fields@.len() - k,
        {
            proof {
                assert(decreases_to!(fields => fields@[k as int].1));
            }
            if store {
                self.compile_expr(ctx, &fields[k].1);
                let idx = self.chunk.add_field_name(fields[k].0.as_str());
                let ghost mid = self.chunk.code@;
                self.emit_op(Opcode::StoreField(idx));
                proof {
                    lemma_ends_with(mid, Opcode::StoreField(idx));
                }
            } else {
                let ghost c0 = self.chunk.code@;
                self.load_const(Constant::Str(fields[k].0.clone()));
                proof {
                    lemma_load_const_len(const_index(old(self).chunk.constants@, Constant::Nil));
                    assert(encode(Opcode::LoadConst(0)).len() > 0);
                }
                self.compile_expr(ctx, &fields[k].1);
            }
            k = k + 1;
        }
    }

    /// Emit the instruction of a binary operator other than assignment.
    fn emit_binary_op(&mut self, op: BinOp)
        requires
            old(self).wf(),
            op != BinOp::Assign,
        ensures
            old(self).kept(*final(self)),
            final(self).chunk.code@ == old(self).chunk.code@ + encode(binary_opcode_of(op)),
            final(self).locals@ == old(self).locals@,
            final(self).scope_marks@ == old(self).scope_marks@,
            final(self).loop_end_jumps@ == old(self).loop_end_jumps@,
    {
        self.emit_op(binary_opcode(op));
    }

    /// Compile a call: of an enum constructor by name, building the variant
    /// from the arguments, else of the callee's value.
    fn compile_call(&mut self, ctx: &mut CompileContext, expr: &Expr)
        requires
            old(self).wf(),
            old(ctx).wf(),
            expr is Call,
        ensures
            old(self).balanced(*final(self)),
            old(ctx).kept(*final(ctx)),
            match *expr {
                Expr::Call { func, args } => match (*func, old(ctx).symbols.resolves(name_called(*func))) {
                    (Expr::Ident(_), Some(SymEntry { kind: SymKind::EnumConstructor { tag, .. }, .. })) => ends_with(
                        final(self).chunk.code@,
                        Opcode::MakeEnum(tag, args@.len() as u16),
                    ),
                    _ => ends_with(final(self).chunk.code@, Opcode::Call(args@.len() as u16)),
                },
                _ => true,
            },
            expr_compiled(*expr, *old(self), *final(self), *old(ctx), *final(ctx)),
        decreases expr, 1nat,
    {
        proof {
            lemma_follows_refl(*self);
        }
        match expr {
            Expr::Call { func, args } => {
                #[verifier::truncate]
                let n = args.len() as u16;
                match &**func {
                    Expr::Ident(name) => {
                        match ctx.symbols.lookup(name.as_str()) {
                            Some(entry) => match &entry.kind {
                                SymKind::EnumConstructor { tag, .. } => {
                                    let t = *tag;
                                    self.compile_exprs(ctx, args);
                                    let ghost (s2, c2) = (*self, *ctx);
                                    let ghost mid = self.chunk.code@;
                                    self.emit_op(Opcode::MakeEnum(t, n));
                                    proof {
                                        lemma_ends_with(mid, Opcode::MakeEnum(t, n));
                                        let (ms, cs, ts) = choose|ms: Seq<FunctionCompiler>, cs: Seq<CompileContext>,
                                            ts: Seq<CompileTrace>| #[trigger] exprs_traced(args@, ms, cs, ts)
                                            && ms[0] == *old(self) && cs[0] == *old(ctx) && ms.last() == s2 && cs.last() == c2;
                                        lemma_traced(*expr, *old(self), *self, *old(ctx), *ctx,
                                            CompileTrace::List(*old(self), *old(ctx), Box::new(CompileTrace::Done), ms, cs, ts));
                                    }
                                    return;
                                },
                                _ => {},
                            },
                            None => {},
                        }
                    },
                    _ => {},
                }
                let ghost (s0, c0) = (*self, *ctx);
                self.compile_expr(ctx, func);
                let ghost (s1, c1) = (*self, *ctx);
                self.compile_exprs(ctx, args);
                let ghost (s2, c2) = (*self, *ctx);
                let ghost mid = self.chunk.code@;
                self.emit_op(Opcode::Call(n));
                proof {
                    lemma_ends_with(mid, Opcode::Call(n));
                    let t1 = lemma_compiled_trace(**func, s0, s1, c0, c1);
                    let (ms, cs, ts) = choose|ms: Seq<FunctionCompiler>, cs: Seq<CompileContext>, ts: Seq<CompileTrace>|
                        #[trigger] exprs_traced(args@, ms, cs, ts) && ms[0] == s1 && cs[0] == c1 && ms.last() == s2
                            && cs.last() == c2;
                    lemma_traced(*expr, *old(self), *self, *old(ctx), *ctx,
                        CompileTrace::List(s1, c1, Box::new(t1), ms, cs, ts));
                }
            },
            _ => {},
        }
    }

    /// Compile an assignment `target = value`.
    fn compile_assignment(&mut self, ctx: &mut CompileContext, expr: &Expr)
        requires
            old(self).wf(),
            old(ctx).wf(),
            expr is Binary,
        ensures
            old(self).balanced(*final(self)),
            old(ctx).kept(*final(ctx)),
            match *expr {
                Expr::Binary { lhs, .. } => match *lhs {
                    Expr::Ident(name) => match local_slot(old(self).locals@, name@) {
                        Some(slot) => ends_with(final(self).chunk.code@, Opcode::StoreLocal(slot)),
                        None => match global_slot(final(ctx).globals@, name@) {
                            Some(g) => ends_with(final(self).chunk.code@, Opcode::StoreGlobal(g)),
                            None => final(ctx).errors@.len() > 0 && compile_error_is(final(ctx).errors@.last(),
                                old(self).current_line, quoted_msg("cannot assign to undefined variable "@, name@)),
                        },
                    },
                    Expr::Field { .. } => exists|i: u16| #[trigger] ends_with(final(self).chunk.code@, Opcode::StoreField(i)),
                    Expr::Index { .. } => ends_with(final(self).chunk.code@, Opcode::StoreIndex),
                    _ => final(self).chunk.code@ == old(self).chunk.code@ && final(ctx).errors@.len() > 0
                        && compile_error_is(final(ctx).errors@.last(), old(self).current_line, "invalid assignment target"@),
                },
                _ => true,
            },
        decreases expr, 1nat,
    {
        proof {
            lemma_follows_refl(*self);
        }
        match expr {
            Expr::Binary { lhs, rhs, .. } => {
                match &**lhs {
                    Expr::Ident(name) => {
                        self.compile_expr(ctx, rhs);
                        match self.resolve_local(name.as_str()) {
                            Some(idx) => {
                                let ghost mid = self.chunk.code@;
                                self.emit_op(Opcode::StoreLocal(idx));
                                proof {
                                    lemma_ends_with(mid, Opcode::StoreLocal(idx));
                                }
                                return;
                            },
                            None => {},
                        }
                        match self.resolve_global(ctx, name.as_str()) {
                            Some(idx) => {
                                let ghost mid = self.chunk.code@;
                                self.emit_op(Opcode::StoreGlobal(idx));
                                proof {
                                    lemma_ends_with(mid, Opcode::StoreGlobal(idx));
                                }
                                return;
                            },
                            None => {},
                        }
                        let msg = quoted("cannot assign to undefined variable ", name.as_str());
                        self.error(ctx, msg);
                    },
                    Expr::Field { obj, field } => {
                        self.compile_expr(ctx, obj);
                        self.compile_expr(ctx, rhs);
                        let idx = self.chunk.add_field_name(field.as_str());
                        let ghost mid = self.chunk.code@;
                        self.emit_op(Opcode::StoreField(idx));
                        proof {
                            lemma_ends_with(mid, Opcode::StoreField(idx));
                        }
                    },
                    Expr::Index { obj, index } => {
                        self.compile_expr(ctx, obj);
                        self.compile_expr(ctx, index);
                        self.compile_expr(ctx, rhs);
                        let ghost mid = self.chunk.code@;
                        self.emit_op(Opcode::StoreIndex);
                        proof {
                            lemma_ends_with(mid, Opcode::StoreIndex);
                        }
                    },
                    _ => {
                        let msg = String::from_str("invalid assignment target");
                        self.error(ctx, msg);
                    },
                }
            },
            _ => {},
        }
    }
}


impl FunctionCompiler {
    /// Set up a `for` loop in a scope already entered: its hidden locals, the
    /// user's variable, and the test at the loop's start. Returns the counter's
    /// slot, the loop's start and the exit jump's offset.
    #[verifier::rlimit(40)]
    fn for_header(&mut self, ctx: &mut CompileContext, expr: &Expr) -> (r: (u16, usize, usize))
        requires
            old(self).wf(),
            old(ctx).wf(),
            expr is For,
        ensures
            old(self).stmt_kept(*final(self)),
            old(ctx).kept(*final(ctx)),
            old(self).chunk.code@.len() <= r.1 <= r.2,
            r.2 + 2 < final(self).chunk.code@.len(),
        decreases expr, 0nat,
    {
        proof {
            lemma_follows_refl(*self);
        }
        match expr {
            Expr::For { var, iter, .. } => {
                let counter: u16;
                let loop_start: usize;
                let exit: usize;
                let user: u16;
                match &**iter {
                    Expr::Range { start, end, inclusive } => {
                        self.compile_expr(ctx, start);
                        let var_slot = self.add_local("__i");
                        self.emit_op(Opcode::StoreLocal(var_slot));
                        self.compile_expr(ctx, end);
                        let limit_slot = self.add_local("__limit");
                        self.emit_op(Opcode::StoreLocal(limit_slot));
                        user = self.add_local(var.as_str());
                        loop_start = self.current_offset();
                        self.emit_op(Opcode::LoadLocal(var_slot));
                        self.emit_op(Opcode::LoadLocal(limit_slot));
                        if *inclusive {
                            self.emit_op(Opcode::Le);
                        } else {
                            self.emit_op(Opcode::Lt);
                        }
                        exit = self.current_offset();
                        self.emit_op(Opcode::JumpIfFalse(0));
                        self.emit_op(Opcode::LoadLocal(var_slot));
                        self.emit_op(Opcode::StoreLocal(user));
                        counter = var_slot;
                    },
                    _ => {
                        self.compile_expr(ctx, iter);
                        let iter_slot = self.add_local("__iter");
                        self.emit_op(Opcode::StoreLocal(iter_slot));
                        let zero = self.add_const(Constant::Int(0));
                        self.emit_op(Opcode::LoadConst(zero));
                        let idx_slot = self.add_local("__i");
                        self.emit_op(Opcode::StoreLocal(idx_slot));
                        self.emit_op(Opcode::LoadLocal(iter_slot));
                        self.emit_op(Opcode::Len);
                        let len_slot = self.add_local("__len");
                        self.emit_op(Opcode::StoreLocal(len_slot));
                        user = self.add_local(var.as_str());
                        loop_start = self.current_offset();
                        self.emit_op(Opcode::LoadLocal(idx_slot));
                        self.emit_op(Opcode::LoadLocal(len_slot));
                        self.emit_op(Opcode::Lt);
                        exit = self.current_offset();
                        self.emit_op(Opcode::JumpIfFalse(0));
                        self.emit_op(Opcode::LoadLocal(iter_slot));
                        self.emit_op(Opcode::LoadLocal(idx_slot));
                        self.emit_op(Opcode::LoadIndex);
                        self.emit_op(Opcode::StoreLocal(user));
                        counter = idx_slot;
                    },
                }
                (counter, loop_start, exit)
            },
            _ => (0, 0, 0),
        }
    }

    /// Compile a `for` loop: over a range with a counter, else over the
    /// elements of an array or string by index.
    fn compile_for(&mut self, ctx: &mut CompileContext, expr: &Expr)
        requires
            old(self).wf(),
            old(ctx).wf(),
            expr is For,
        ensures
            old(self).balanced(*final(self)),
            old(ctx).kept(*final(ctx)),
            loads_nil_last(final(self).chunk.code@, final(self).chunk.constants@),
        decreases expr, 1nat,
    {
        proof {
            lemma_follows_refl(*self);
        }
        let ghost region = old(self).chunk.code@.len();
        match expr {
            Expr::For { body, .. } => {
                self.enter_scope();
                let ghost entered = *self;
                let (counter, loop_start, exit) = self.for_header(ctx, expr);
                let ghost before_body = *self;
                let mut exits: Vec<usize> = Vec::new();
                exits.push(exit);
                let jumps = self.compile_loop_body(ctx, body, loop_start, exits, Ghost(region));
                let one = self.add_const(Constant::Int(1));
                let slot = counter;
                self.emit_op(Opcode::LoadLocal(slot));
                self.emit_op(Opcode::LoadConst(one));
                self.emit_op(Opcode::Add);
                self.emit_op(Opcode::StoreLocal(slot));
                #[verifier::truncate]
                let back = loop_start as u16;
                self.emit_op(Opcode::Loop(back));
                let ghost before = *self;
                self.patch_all(&jumps, Ghost(region));
                proof {
                    lemma_follows_trans(*old(self), before, *self, region, region);
                }
                let ghost body_done = *self;
                self.exit_scope();
                proof {
                    let n = entered.locals@.len();
                    let m = self.locals@.len();
                    assert(entered.locals@ == old(self).locals@);
                    assert(is_prefix(entered.locals@, body_done.locals@));
                    if m < n {
                        assert(body_done.locals@[m as int] == entered.locals@[m as int]);
                        assert(entered.locals@[m as int].depth <= old(self).depth());
                    }
                    if m > n {
                        assert(self.locals@[n as int] == body_done.locals@[n as int]);
                        assert(body_done.locals@[n as int].depth == entered.depth());
                    }
                    assert(self.locals@ =~= old(self).locals@);
                    assert(self.scope_marks@ =~= old(self).scope_marks@);
                }
                let ghost pre = *self;
                self.none();
                proof {
                    lemma_nil_loaded(pre.chunk.code@, pre.chunk.constants@);
                }
            },
            _ => {},
        }
    }
}


/// Some local from position `from` on is named `n`.
pub open spec fn local_named(ls: Seq<Local>, from: int, n: Seq<char>) -> bool {
    exists|l: int| from <= l < ls.len() && #[trigger] ls[l].name@ == n
}

/// Some non-empty binding is `n`.
pub open spec fn binding_named(bindings: Seq<String>, n: Seq<char>) -> bool {
    exists|i: int| 0 <= i < bindings.len() && bindings[i]@.len() > 0 && #[trigger] bindings[i]@ == n
}

/// A match arm that matches anything and ends the arms compiled.
pub open spec fn arm_ends(a: MatchArm) -> bool {
    a.pattern is Wildcard || a.pattern is Ident
}

/// `n` arms were compiled: all of them, or up to and including the first
/// that matches anything.
pub open spec fn arms_compiled(arms: Seq<MatchArm>, n: int) -> bool {
    &&& 0 <= n <= arms.len()
    &&& forall|i: int| 0 <= i < n - 1 ==> !arm_ends(#[trigger] arms[i])
    &&& n == arms.len() || (n >= 1 && arm_ends(arms[n - 1]))
}

/// Pending jump offsets, each at or after `region` and inside the code.
pub open spec fn jumps_ok(jumps: Seq<usize>, region: nat, len: nat) -> bool {
    forall|k: int| 0 <= k < jumps.len() ==> region <= #[trigger] jumps[k] && jumps[k] + 2 < len
}

impl FunctionCompiler {
    /// Compile a `match`: each arm tests the scrutinee in turn; a wildcard or
    /// binding arm matches anything and ends the list.
    #[verifier::rlimit(40)]
    fn compile_match(&mut self, ctx: &mut CompileContext, expr: &Expr)
        requires
            old(self).wf(),
            old(ctx).wf(),
            expr is Match,
        ensures
            old(self).balanced(*final(self)),
            old(ctx).kept(*final(ctx)),
            loads_nil_last(final(self).chunk.code@, final(self).chunk.constants@),
        decreases expr, 1nat,
    {
        proof {
            lemma_follows_refl(*self);
        }
        let ghost region = old(self).chunk.code@.len();
        match expr {
            Expr::Match { expr: scrutinee, arms } => {
                self.compile_expr(ctx, scrutinee);
                let mut end_jumps: Vec<usize> = Vec::new();
                self.compile_arms(ctx, arms, &mut end_jumps, Ghost(region));
                self.emit_op(Opcode::Pop);
                let ghost pre = *self;
                self.none();
                let ghost before = *self;
                proof {
                    lemma_nil_loaded(pre.chunk.code@, pre.chunk.constants@);
                }
                self.patch_all(&end_jumps, Ghost(region));
                proof {
                    lemma_follows_trans(*old(self), before, *self, region, region);
                    lemma_patched_keeps(before.chunk.code@, end_jumps@, before.chunk.code@.len() as u16, pre.chunk.code@.len() as int);
                    let w = choose|w: int| 0 <= w < before.chunk.constants@.len() && before.chunk.constants@[w] is Nil
                        && #[trigger] ends_with(before.chunk.code@, Opcode::LoadConst(w as u16));
                    lemma_load_const_len(w as u16);
                    lemma_load_const_len(const_index(pre.chunk.constants@, Constant::Nil));
                    lemma_ends_with_kept(before.chunk.code@, self.chunk.code@, Opcode::LoadConst(w as u16), pre.chunk.code@.len() as int);
                }
            },
            _ => {},
        }
    }

    /// Bind each payload field of the enum value on top of the stack to the
    /// name at its position, as a new local; an empty name discards the field.
    fn bind_variant_fields(&mut self, bindings: &Vec<String>)
        requires
            old(self).wf(),
        ensures
            old(self).stmt_kept(*final(self)),
            final(self).loop_end_jumps@ == old(self).loop_end_jumps@,
            forall|i: int| 0 <= i < bindings@.len() && bindings@[i]@.len() > 0 ==> #[trigger] local_named(
                final(self).locals@, old(self).locals@.len() as int, bindings@[i]@),
            forall|l: int| old(self).locals@.len() <= l < final(self).locals@.len() ==> #[trigger] binding_named(
                bindings@, final(self).locals@[l].name@),
    {
        proof {
            lemma_follows_refl(*self);
        }
        let mut b: usize = 0;
        while b < bindings.len()
            invariant
                b <= bindings@.len(),
                old(self).stmt_kept(*self),
                self.loop_end_jumps@ == old(self).loop_end_jumps@,
                forall|i: int| 0 <= i < b && bindings@[i]@.len() > 0 ==> #[trigger] local_named(
                    self.locals@, old(self).locals@.len() as int, bindings@[i]@),
                forall|l: int| old(self).locals@.len() <= l < self.locals@.len() ==> #[trigger] binding_named(
                    bindings@, self.locals@[l].name@),
            decreases bindings@.len() - b,
        {
            let ghost before = *self;
            self.emit_op(Opcode::Dup);
            #[verifier::truncate]
            let field = b as u16;
            self.load_const(Constant::Int(field as i64));
            self.emit_op(Opcode::LoadIndex);
            if bindings[b].as_str().is_empty() {
                self.emit_op(Opcode::Pop);
            } else {
                let ghost mid = *self;
                let slot = self.add_local(bindings[b].as_str());
                proof {
                    assert forall|i: int| old(self).locals@.len() <= i < self.locals@.len()
                        implies (#[trigger] self.locals@[i]).depth == old(self).depth() by {
                        if i < mid.locals@.len() {
                            assert(self.locals@[i] == self.locals@.drop_last()[i]);
                        }
                    }
                    assert forall|i: int| 0 <= i < old(self).locals@.len()
                        implies #[trigger] self.locals@[i] == old(self).locals@[i] by {
                        assert(self.locals@[i] == self.locals@.drop_last()[i]);
                    }
                }
                proof {
                    let n = self.locals@.len() - 1;
                    assert(self.locals@[n].name@ == bindings@[b as int]@);
                    assert(binding_named(bindings@, self.locals@[n].name@));
                    assert(local_named(self.locals@, old(self).locals@.len() as int, bindings@[b as int]@));
                    assert forall|i: int| 0 <= i < b && bindings@[i]@.len() > 0 implies #[trigger] local_named(
                        self.locals@, old(self).locals@.len() as int, bindings@[i]@) by {
                        assert(local_named(mid.locals@, old(self).locals@.len() as int, bindings@[i]@));
                        let l = choose|l: int| old(self).locals@.len() <= l < mid.locals@.len() && #[trigger] mid.locals@[l].name@ == bindings@[i]@;
                        assert(self.locals@[l] == mid.locals@[l]);
                    }
                    assert forall|l: int| old(self).locals@.len() <= l < self.locals@.len() implies #[trigger] binding_named(
                        bindings@, self.locals@[l].name@) by {
                        if l < n {
                            assert(self.locals@[l] == mid.locals@[l]);
                        }
                    }
                }
                self.emit_op(Opcode::StoreLocal(slot));
            }
            b = b + 1;
        }
    }

    /// Compile the arms of a `match` in turn, up to the first that matches anything.
    fn compile_arms(&mut self, ctx: &mut CompileContext, arms: &Vec<MatchArm>, end_jumps: &mut Vec<usize>, Ghost(region): Ghost<nat>)
        requires
            old(self).wf(),
            old(ctx).wf(),
            region <= old(self).chunk.code@.len(),
            jumps_ok(old(end_jumps)@, region, old(self).chunk.code@.len()),
        ensures
            old(self).balanced(*final(self)),
            old(ctx).kept(*final(ctx)),
            jumps_ok(final(end_jumps)@, region, final(self).chunk.code@.len()),
            is_prefix(old(end_jumps)@, final(end_jumps)@),
            arms_compiled(arms@, final(end_jumps)@.len() - old(end_jumps)@.len()),
        decreases arms, 1nat,
    {
        proof {
            lemma_follows_refl(*self);
        }
        let mut k: usize = 0;
        while k < arms.len()
            invariant_except_break
                end_jumps@.len() == old(end_jumps)@.len() + k,
            invariant
                k <= arms@.len(),
                old(self).balanced(*self),
                old(ctx).kept(*ctx),
                region <= old(self).chunk.code@.len(),
                jumps_ok(end_jumps@, region, self.chunk.code@.len()),
                is_prefix(old(end_jumps)@, end_jumps@),
                forall|i: int| 0 <= i < k ==> !arm_ends(#[trigger] arms@[i]),
            ensures
                old(self).balanced(*self),
                old(ctx).kept(*ctx),
                jumps_ok(end_jumps@, region, self.chunk.code@.len()),
                is_prefix(old(end_jumps)@, end_jumps@),
                arms_compiled(arms@, end_jumps@.len() - old(end_jumps)@.len()),
            decreases arms@.len() - k,
        {
            proof {
                assert(decreases_to!(arms => arms@[k as int]));
            }
            let ghost j0 = end_jumps@;
            let stop = self.compile_arm(ctx, &arms[k], end_jumps, Ghost(region));
            proof {
                assert forall|i: int| 0 <= i < old(end_jumps)@.len() implies #[trigger] end_jumps@[i] == old(end_jumps)@[i] by {
                    assert(end_jumps@[i] == end_jumps@.drop_last()[i]);
                    assert(j0[i] == old(end_jumps)@[i]);
                }
            }
            if stop {
                break;
            }
            assert(!arm_ends(arms@[k as int]));
            k = k + 1;
        }
    }

    /// Compile one arm of a `match`, adding the jump past the whole match to
    /// `end_jumps`; true when the arm matches anything.
    #[verifier::rlimit(40)]
    fn compile_arm(&mut self, ctx: &mut CompileContext, arm: &MatchArm, end_jumps: &mut Vec<usize>, Ghost(region): Ghost<nat>) -> (stop: bool)
        requires
            old(self).wf(),
            old(ctx).wf(),
            region <= old(self).chunk.code@.len(),
            jumps_ok(old(end_jumps)@, region, old(self).chunk.code@.len()),
        ensures
            old(self).balanced(*final(self)),
            old(ctx).kept(*final(ctx)),
            jumps_ok(final(end_jumps)@, region, final(self).chunk.code@.len()),
            stop == (arm.pattern is Wildcard || arm.pattern is Ident),
            final(end_jumps)@.len() == old(end_jumps)@.len() + 1,
            final(end_jumps)@.drop_last() == old(end_jumps)@,
            stop ==> ends_with(final(self).chunk.code@, Opcode::Jump(0))
                && final(end_jumps)@.last() + 3 == final(self).chunk.code@.len(),
        decreases arm, 0nat,
    {
        proof {
            lemma_follows_refl(*self);
        }
        self.emit_op(Opcode::Dup);
        match &arm.pattern {
            Pattern::Wildcard => {
                self.emit_op(Opcode::Pop);
                self.compile_expr(ctx, &arm.body);
                let j = self.current_offset();
                let ghost mid = self.chunk.code@;
                self.emit_op(Opcode::Jump(0));
                proof {
                    lemma_ends_with(mid, Opcode::Jump(0));
                    lemma_jump_len(0);
                }
                end_jumps.push(j);
                proof {
                    assert(end_jumps@.drop_last() =~= old(end_jumps)@);
                }
                return true;
            },
            Pattern::Ident(name) => {
                self.enter_scope();
                let ghost entered = *self;
                let slot = self.add_local(name.as_str());
                self.emit_op(Opcode::StoreLocal(slot));
                self.compile_expr(ctx, &arm.body);
                let ghost body_done = *self;
                self.exit_scope();
                proof {
                    let n = entered.locals@.len();
                    let m = self.locals@.len();
                    if m < n {
                        assert(body_done.locals@[m as int] == entered.locals@[m as int]);
                        assert(entered.locals@[m as int].depth <= old(self).depth());
                    }
                    if m > n {
                        assert(self.locals@[n as int] == body_done.locals@[n as int]);
                    }
                    assert(self.locals@ =~= old(self).locals@);
                    assert(self.scope_marks@ =~= old(self).scope_marks@);
                }
                let j = self.current_offset();
                let ghost mid = self.chunk.code@;
                self.emit_op(Opcode::Jump(0));
                proof {
                    lemma_ends_with(mid, Opcode::Jump(0));
                    lemma_jump_len(0);
                }
                end_jumps.push(j);
                proof {
                    assert(end_jumps@.drop_last() =~= old(end_jumps)@);
                }
                return true;
            },
            Pattern::EnumVariant { variant_name, bindings, .. } => {
                let tag: u16 = match ctx.symbols.lookup(variant_name.as_str()) {
                    Some(entry) => match &entry.kind {
                        SymKind::EnumConstructor { tag, .. } => *tag,
                        _ => 0,
                    },
                    None => 0,
                };
                let tag_field = self.chunk.add_field_name("tag");
                self.emit_op(Opcode::LoadField(tag_field));
                self.load_const(Constant::Int(tag as i64));
                self.emit_op(Opcode::Eq);
                let next = self.current_offset();
                self.emit_op(Opcode::JumpIfFalse(0));
                self.enter_scope();
                let ghost entered = *self;
                self.bind_variant_fields(bindings);
                self.emit_op(Opcode::Pop);
                self.compile_expr(ctx, &arm.body);
                let ghost body_done = *self;
                self.exit_scope();
                proof {
                    let n = entered.locals@.len();
                    let m = self.locals@.len();
                    if m < n {
                        assert(body_done.locals@[m as int] == entered.locals@[m as int]);
                        assert(entered.locals@[m as int].depth <= old(self).depth());
                    }
                    if m > n {
                        assert(self.locals@[n as int] == body_done.locals@[n as int]);
                    }
                    assert(self.locals@ =~= old(self).locals@);
                    assert(self.scope_marks@ =~= old(self).scope_marks@);
                }
                let j = self.current_offset();
                self.emit_op(Opcode::Jump(0));
                end_jumps.push(j);
                let ghost before = *self;
                self.patch_jump(next);
                proof {
                    lemma_follows_trans(*old(self), before, *self, old(self).chunk.code@.len(), (next + 1) as nat);
                }
                false
            },
            _ => {
                let c = match &arm.pattern {
                    Pattern::Int(n) => Constant::Int(*n),
                    Pattern::Float(t) => Constant::Float(t.clone()),
                    Pattern::Str(t) => Constant::Str(t.clone()),
                    Pattern::Bool(v) => Constant::Bool(*v),
                    _ => Constant::Nil,
                };
                self.load_const(c);
                self.emit_op(Opcode::Eq);
                let next = self.current_offset();
                self.emit_op(Opcode::JumpIfFalse(0));
                self.emit_op(Opcode::Pop);
                self.compile_expr(ctx, &arm.body);
                let j = self.current_offset();
                self.emit_op(Opcode::Jump(0));
                end_jumps.push(j);
                let ghost before = *self;
                self.patch_jump(next);
                proof {
                    lemma_follows_trans(*old(self), before, *self, old(self).chunk.code@.len(), (next + 1) as nat);
                }
                false
            },
        }
    }
}


/// The names as character sequences.
pub open spec fn names_of(v: Seq<String>) -> Seq<Seq<char>> {
    v.map_values(|s: String| s@)
}

/// No name occurs twice.
pub open spec fn distinct_views(v: Seq<String>) -> bool {
    forall|i: int, j: int| 0 <= i < j < v.len() ==> v[i]@ != v[j]@
}

/// The names that `b` has beyond its prefix `a` are new to `a`, distinct, and
/// not among `own`.
pub open spec fn grew_with_free(a: Seq<String>, b: Seq<String>, own: Seq<String>) -> bool {
    &&& is_prefix(a, b)
    &&& (distinct_views(a) ==> distinct_views(b))
    &&& forall|i: int| a.len() <= i < b.len() ==> !names_of(own).contains(#[trigger] b[i]@)
}

/// Whether `name` is one of `v`.
pub fn contains_name(v: &Vec<String>, name: &String) -> (b: bool)
    ensures
        b == names_of(v@).contains(name@),
{
    let mut i: usize = 0;
    while i < v.len()
        invariant
            i <= v@.len(),
            forall|j: int| 0 <= j < i ==> v@[j]@ != name@,
        decreases v@.len() - i,
    {
        if v[i] == *name {
            proof {
                assert(names_of(v@)[i as int] == name@);
            }
            return true;
        }
        i = i + 1;
    }
    proof {
        if names_of(v@).contains(name@) {
            let w = choose|w: int| 0 <= w < names_of(v@).len() && names_of(v@)[w] == name@;
            assert(v@[w]@ != name@);
        }
    }
    false
}

/// A copy of a list of names.
pub fn copy_names(v: &Vec<String>) -> (r: Vec<String>)
    ensures
        r@ == v@,
{
    let mut r: Vec<String> = Vec::new();
    let mut i: usize = 0;
    while i < v.len()
        invariant
            i <= v@.len(),
            r@ == v@.subrange(0, i as int),
        decreases v@.len() - i,
    {
        r.push(v[i].clone());
        i = i + 1;
        assert(r@ =~= v@.subrange(0, i as int));
    }
    assert(v@.subrange(0, v@.len() as int) =~= v@);
    r
}

proof fn lemma_own_grows(own: Seq<String>, bigger: Seq<String>, n: Seq<char>)
    requires
        is_prefix(own, bigger),
        names_of(own).contains(n),
    ensures
        names_of(bigger).contains(n),
{
    let w = choose|w: int| 0 <= w < names_of(own).len() && names_of(own)[w] == n;
    assert(names_of(bigger)[w] == n);
}

/// Add `name` to the result unless it is one of `own` or already there.
fn note_name(name: &String, own: &Vec<String>, result: &mut Vec<String>)
    ensures
        grew_with_free(old(result)@, final(result)@, own@),
        forall|n: Seq<char>| #[trigger] names_of(final(result)@).contains(n)
            <==> (names_of(old(result)@).contains(n) || (n == name@ && !names_of(own@).contains(n))),
{
    let in_own = contains_name(own, name);
    let seen = contains_name(result, name);
    if !in_own && !seen {
        result.push(name.clone());
        proof {
            let a = old(result)@;
            let b = result@;
            assert(names_of(b) =~= names_of(a).push(name@));
            assert forall|n: Seq<char>| #[trigger] names_of(b).contains(n)
                <==> (names_of(a).contains(n) || (n == name@ && !names_of(own@).contains(n))) by {
                if names_of(b).contains(n) && !names_of(a).contains(n) {
                    let w = choose|w: int| 0 <= w < names_of(b).len() && names_of(b)[w] == n;
                    if w < a.len() {
                        assert(names_of(a)[w] == n);
                    }
                }
                if names_of(a).contains(n) {
                    let w = choose|w: int| 0 <= w < names_of(a).len() && names_of(a)[w] == n;
                    assert(names_of(b)[w] == n);
                }
                if n == name@ {
                    assert(names_of(b)[a.len() as int] == n);
                }
            }
            if distinct_views(a) {
                assert forall|i: int, j: int| 0 <= i < j < b.len() implies b[i]@ != b[j]@ by {
                    if j == a.len() {
                        assert(names_of(a)[i] == a[i]@);
                    }
                }
            }
        }
    } else {
        proof {
            assert(result@ =~= old(result)@);
            assert forall|n: Seq<char>| #[trigger] names_of(result@).contains(n)
                <==> (names_of(old(result)@).contains(n) || (n == name@ && !names_of(own@).contains(n))) by {
            }
        }
    }
}

proof fn lemma_grew_trans(a: Seq<String>, b: Seq<String>, c: Seq<String>, own: Seq<String>, own2: Seq<String>)
    requires
        grew_with_free(a, b, own),
        grew_with_free(b, c, own2),
        is_prefix(own, own2),
    ensures
        grew_with_free(a, c, own),
{
    assert forall|i: int| a.len() <= i < c.len() implies !names_of(own).contains(#[trigger] c[i]@) by {
        if i < b.len() {
            assert(c[i] == b[i]);
        } else if names_of(own).contains(c[i]@) {
            lemma_own_grows(own, own2, c[i]@);
        }
    }
}

/// The names of parameters.
pub open spec fn param_names(ps: Seq<Param>) -> Seq<Seq<char>> {
    ps.map_values(|p: Param| p.name@)
}

/// The name a statement binds for the statements after it: a `let`'s.
pub open spec fn stmt_binds(s: Stmt) -> Seq<Seq<char>> {
    match s {
        Stmt::Let { name, .. } => seq![name@],
        _ => Seq::empty(),
    }
}

/// Name `n` is used in `e` where it is bound neither by `own` nor inside `e`:
/// a lambda binds its parameters in its body; a block's `let` binds its name
/// in the statements after it; a nested function binds its parameters in its
/// body. The variable of a `for`, the names a pattern binds and a struct
/// literal's base are not looked at.
pub open spec fn free_in(e: Expr, own: Seq<Seq<char>>, n: Seq<char>) -> bool
    decreases e, 2nat,
{
    match e {
        Expr::Ident(m) => m@ == n && !own.contains(n),
        Expr::Block(stmts) => free_in_stmts(stmts@, own, n),
        Expr::Lambda { params, body, .. } => free_in(*body, own + param_names(params@), n),
        Expr::If { cond, then, else_ } => free_in(*cond, own, n) || free_in(*then, own, n) || match else_ {
            Some(x) => free_in(*x, own, n),
            None => false,
        },
        Expr::While { cond, body } => free_in(*cond, own, n) || free_in(*body, own, n),
        Expr::Loop(body) => free_in(*body, own, n),
        Expr::For { iter, body, .. } => free_in(*iter, own, n) || free_in(*body, own, n),
        Expr::Match { expr, arms } => free_in(*expr, own, n) || free_in_arms(arms@, own, n),
        Expr::Binary { lhs, rhs, .. } => free_in(*lhs, own, n) || free_in(*rhs, own, n),
        Expr::Unary { expr, .. } => free_in(*expr, own, n),
        Expr::Call { func, args } => free_in(*func, own, n) || free_in_exprs(args@, own, n),
        Expr::MethodCall { obj, args, .. } => free_in(*obj, own, n) || free_in_exprs(args@, own, n),
        Expr::Field { obj, .. } => free_in(*obj, own, n),
        Expr::Index { obj, index } => free_in(*obj, own, n) || free_in(*index, own, n),
        Expr::StructLit { fields, .. } => free_in_fields(fields@, own, n),
        Expr::Array(elems) => free_in_exprs(elems@, own, n),
        Expr::Range { start, end, .. } => free_in(*start, own, n) || free_in(*end, own, n),
        Expr::Return(Some(inner)) => free_in(*inner, own, n),
        _ => false,
    }
}

/// `free_in` for some expression of a list.
pub open spec fn free_in_exprs(es: Seq<Expr>, own: Seq<Seq<char>>, n: Seq<char>) -> bool
    decreases es, 0nat,
{
    if es.len() == 0 {
        false
    } else {
        free_in_exprs(es.drop_last(), own, n) || free_in(es.last(), own, n)
    }
}

/// `free_in` for some guard or body of a list of match arms.
pub open spec fn free_in_arms(arms: Seq<MatchArm>, own: Seq<Seq<char>>, n: Seq<char>) -> bool
    decreases arms, 0nat,
{
    if arms.len() == 0 {
        false
    } else {
        free_in_arms(arms.drop_last(), own, n) || (match arms.last().guard {
            Some(g) => free_in(*g, own, n),
            None => false,
        }) || free_in(*arms.last().body, own, n)
    }
}

/// `free_in` for some value of a list of struct literal fields.
pub open spec fn free_in_fields(fs: Seq<(String, Expr)>, own: Seq<Seq<char>>, n: Seq<char>) -> bool
    decreases fs, 0nat,
{
    if fs.len() == 0 {
        false
    } else {
        free_in_fields(fs.drop_last(), own, n) || free_in(fs.last().1, own, n)
    }
}

/// The names the statements bind, in order.
pub open spec fn binds_of(ss: Seq<Spanned<Stmt>>) -> Seq<Seq<char>>
    decreases ss.len(),
{
    if ss.len() == 0 {
        Seq::empty()
    } else {
        binds_of(ss.drop_last()) + stmt_binds(ss.last().node)
    }
}

/// `n` is used free in the statements, each seeing the names the ones
/// before it bound.
pub open spec fn free_in_stmts(ss: Seq<Spanned<Stmt>>, own: Seq<Seq<char>>, n: Seq<char>) -> bool
    decreases ss, 0nat,
{
    if ss.len() == 0 {
        false
    } else {
        free_in_stmts(ss.drop_last(), own, n) || stmt_free(ss.last().node, own + binds_of(ss.drop_last()), n)
    }
}

/// `n` is used free in some method, each seeing only `own`.
pub open spec fn free_in_methods(ms: Seq<Spanned<Stmt>>, own: Seq<Seq<char>>, n: Seq<char>) -> bool
    decreases ms, 0nat,
{
    if ms.len() == 0 {
        false
    } else {
        free_in_methods(ms.drop_last(), own, n) || stmt_free(ms.last().node, own, n)
    }
}

/// `n` is used free in a statement: a `let`'s value, an expression, a
/// returned value, a function's body (its parameters bound), an impl's
/// methods, a module's statements.
pub open spec fn stmt_free(s: Stmt, own: Seq<Seq<char>>, n: Seq<char>) -> bool
    decreases s, 1nat,
{
    match s {
        Stmt::Let { init, .. } => match init {
            Some(e) => free_in(e, own, n),
            None => false,
        },
        Stmt::Expr(e) => free_in(e, own, n),
        Stmt::Return(Some(e)) => free_in(e, own, n),
        Stmt::Fn { params, body, .. } => free_in_stmts(body@, own + param_names(params@), n),
        Stmt::Impl { methods, .. } => free_in_methods(methods@, own, n),
        Stmt::Mod { body, .. } => free_in_stmts(body@, own, n),
        _ => false,
    }
}

/// `b` is `a` with the names for which `added` holds, in some order.
pub open spec fn collected(a: Seq<String>, b: Seq<String>, added: spec_fn(Seq<char>) -> bool) -> bool {
    forall|n: Seq<char>| #[trigger] names_of(b).contains(n) <==> (names_of(a).contains(n) || added(n))
}

/// The names that `expr` uses but does not bind, not counting `own`, in order
/// of first use.
pub fn collect_free_vars(expr: &Expr, own: &Vec<String>) -> (vars: Vec<String>)
    ensures
        distinct_views(vars@),
        forall|n: Seq<char>| #[trigger] names_of(vars@).contains(n) <==> free_in(*expr, names_of(own@), n),
{
    let mut vars: Vec<String> = Vec::new();
    collect_free_vars_inner(expr, own, &mut vars);
    proof {
        assert forall|n: Seq<char>| #[trigger] names_of(vars@).contains(n) <==> free_in(*expr, names_of(own@), n) by {
            assert(!names_of(Seq::<String>::empty()).contains(n));
        }
    }
    vars
}

/// Add to `result` the names that `expr` uses but does not bind, not counting
/// `own` or the names already there.
pub fn collect_free_vars_inner(expr: &Expr, own: &Vec<String>, result: &mut Vec<String>)
    ensures
        grew_with_free(old(result)@, final(result)@, own@),
        collected(old(result)@, final(result)@, |n: Seq<char>| free_in(*expr, names_of(own@), n)),
    decreases expr, 2nat,
{
    proof {
        assert(is_prefix(own@, own@));
    }
    let ghost r0 = result@;
    let ghost o = names_of(own@);
    match expr {
        Expr::Ident(name) => note_name(name, own, result),
        Expr::Block(stmts) => collect_free_in_stmts(stmts, own, result),
        Expr::Lambda { params, body, .. } => {
            let mut local_own = copy_names(own);
            let mut k: usize = 0;
            while k < params.len()
                invariant
                    k <= params@.len(),
                    is_prefix(own@, local_own@),
                    names_of(local_own@) == names_of(own@) + param_names(params@.subrange(0, k as int)),
                decreases params@.len() - k,
            {
                let ghost lo = local_own@;
                local_own.push(params[k].name.clone());
                k = k + 1;
                proof {
                    assert(names_of(local_own@) =~= names_of(lo).push(params@[k - 1].name@));
                    assert(param_names(params@.subrange(0, k as int)) =~= param_names(params@.subrange(0, k - 1)).push(params@[k - 1].name@));
                    assert(names_of(local_own@) =~= names_of(own@) + param_names(params@.subrange(0, k as int)));
                }
            }
            proof {
                assert(params@.subrange(0, params@.len() as int) =~= params@);
            }
            collect_free_vars_inner(body, &local_own, result);
            proof {
                assert forall|i: int| r0.len() <= i < result@.len() implies !names_of(own@).contains(#[trigger] result@[i]@) by {
                    if names_of(own@).contains(result@[i]@) {
                        lemma_own_grows(own@, local_own@, result@[i]@);
                    }
                }
            }
        },
        Expr::If { cond, then, else_ } => {
            collect_free_vars_inner(cond, own, result);
            let ghost r1 = result@;
            collect_free_vars_inner(then, own, result);
            proof { lemma_grew_trans(r0, r1, result@, own@, own@); }
            match else_ {
                Some(e) => {
                    let ghost r2 = result@;
                    collect_free_vars_inner(e, own, result);
                    proof { lemma_grew_trans(r0, r2, result@, own@, own@); }
                },
                None => {},
            }
        },
        Expr::While { cond, body } => {
            collect_free_vars_inner(cond, own, result);
            let ghost r1 = result@;
            collect_free_vars_inner(body, own, result);
            proof { lemma_grew_trans(r0, r1, result@, own@, own@); }
        },
        Expr::Loop(body) => collect_free_vars_inner(body, own, result),
        Expr::For { iter, body, .. } => {
            collect_free_vars_inner(iter, own, result);
            let ghost r1 = result@;
            collect_free_vars_inner(body, own, result);
            proof { lemma_grew_trans(r0, r1, result@, own@, own@); }
        },
        Expr::Match { expr: scrutinee, arms } => {
            collect_free_vars_inner(scrutinee, own, result);
            let ghost r1 = result@;
            collect_free_in_arms(arms, own, result);
            proof { lemma_grew_trans(r0, r1, result@, own@, own@); }
        },
        Expr::Binary { lhs, rhs, .. } => {
            collect_free_vars_inner(lhs, own, result);
            let ghost r1 = result@;
            collect_free_vars_inner(rhs, own, result);
            proof { lemma_grew_trans(r0, r1, result@, own@, own@); }
        },
        Expr::Unary { expr: inner, .. } => collect_free_vars_inner(inner, own, result),
        Expr::Call { func, args } => {
            collect_free_vars_inner(func, own, result);
            let ghost r1 = result@;
            collect_free_in_exprs(args, own, result);
            proof { lemma_grew_trans(r0, r1, result@, own@, own@); }
        },
        Expr::MethodCall { obj, args, .. } => {
            collect_free_vars_inner(obj, own, result);
            let ghost r1 = result@;
            collect_free_in_exprs(args, own, result);
            proof { lemma_grew_trans(r0, r1, result@, own@, own@); }
        },
        Expr::Field { obj, .. } => collect_free_vars_inner(obj, own, result),
        Expr::Index { obj, index } => {
            collect_free_vars_inner(obj, own, result);
            let ghost r1 = result@;
            collect_free_vars_inner(index, own, result);
            proof { lemma_grew_trans(r0, r1, result@, own@, own@); }
        },
        Expr::StructLit { fields, .. } => collect_free_in_fields(fields, own, result),
        Expr::Array(elems) => collect_free_in_exprs(elems, own, result),
        Expr::Range { start, end, .. } => {
            collect_free_vars_inner(start, own, result);
            let ghost r1 = result@;
            collect_free_vars_inner(end, own, result);
            proof { lemma_grew_trans(r0, r1, result@, own@, own@); }
        },
        Expr::Return(Some(inner)) => collect_free_vars_inner(inner, own, result),
        _ => {
            proof {
                assert(result@ =~= r0);
            }
        },
    }
    proof {
        assert forall|n: Seq<char>| #[trigger] names_of(result@).contains(n)
            <==> (names_of(r0).contains(n) || free_in(*expr, o, n)) by {
        }
    }
}

/// `collect_free_vars_inner` over the guards and bodies of match arms.
fn collect_free_in_arms(arms: &Vec<MatchArm>, own: &Vec<String>, result: &mut Vec<String>)
    ensures
        grew_with_free(old(result)@, final(result)@, own@),
        collected(old(result)@, final(result)@, |n: Seq<char>| free_in_arms(arms@, names_of(own@), n)),
    decreases arms, 1nat,
{
    proof {
        assert(is_prefix(own@, own@));
        assert(result@ =~= old(result)@);
        assert(arms@.take(0) =~= Seq::empty());
    }
    let ghost o = names_of(own@);
    let mut k: usize = 0;
    while k < arms.len()
        invariant
            k <= arms@.len(),
            o == names_of(own@),
            grew_with_free(old(result)@, result@, own@),
            forall|n: Seq<char>| #[trigger] names_of(result@).contains(n)
                <==> (names_of(old(result)@).contains(n) || free_in_arms(arms@.take(k as int), o, n)),
        decreases arms@.len() - k,
    {
        proof {
            assert(decreases_to!(arms => arms@[k as int]));
        }
        let ghost r1 = result@;
        collect_free_in_arm(&arms[k], own, result);
        proof {
            lemma_grew_trans(old(result)@, r1, result@, own@, own@);
            let pre = arms@.take(k + 1);
            assert(pre.drop_last() =~= arms@.take(k as int));
            assert(pre.last() == arms@[k as int]);
        }
        k = k + 1;
    }
    proof {
        assert(arms@.take(k as int) =~= arms@);
    }
}

/// `collect_free_vars_inner` over an arm's guard, then its body.
fn collect_free_in_arm(arm: &MatchArm, own: &Vec<String>, result: &mut Vec<String>)
    ensures
        grew_with_free(old(result)@, final(result)@, own@),
        forall|n: Seq<char>| #[trigger] names_of(final(result)@).contains(n) <==> (names_of(old(result)@).contains(n)
            || (match arm.guard {
                Some(g) => free_in(*g, names_of(own@), n),
                None => false,
            }) || free_in(*arm.body, names_of(own@), n)),
    decreases arm, 0nat,
{
    proof {
        assert(is_prefix(own@, own@));
        assert(result@ =~= old(result)@);
    }
    match &arm.guard {
        Some(g) => collect_free_vars_inner(g, own, result),
        None => {},
    }
    let ghost r1 = result@;
    collect_free_vars_inner(&arm.body, own, result);
    proof {
        lemma_grew_trans(old(result)@, r1, result@, own@, own@);
        assert forall|n: Seq<char>| #[trigger] names_of(result@).contains(n) <==> (names_of(old(result)@).contains(n)
            || (match arm.guard {
                Some(g) => free_in(*g, names_of(own@), n),
                None => false,
            }) || free_in(*arm.body, names_of(own@), n)) by {
            assert(names_of(result@).contains(n) <==> (names_of(r1).contains(n) || free_in(*arm.body, names_of(own@), n)));
        }
    }
}

/// `collect_free_vars_inner` over the values of struct literal fields.
fn collect_free_in_fields(fields: &Vec<(String, Expr)>, own: &Vec<String>, result: &mut Vec<String>)
    ensures
        grew_with_free(old(result)@, final(result)@, own@),
        collected(old(result)@, final(result)@, |n: Seq<char>| free_in_fields(fields@, names_of(own@), n)),
    decreases fields, 0nat,
{
    proof {
        assert(is_prefix(own@, own@));
        assert(result@ =~= old(result)@);
        assert(fields@.take(0) =~= Seq::empty());
    }
    let ghost o = names_of(own@);
    let mut k: usize = 0;
    while k < fields.len()
        invariant
            k <= fields@.len(),
            o == names_of(own@),
            grew_with_free(old(result)@, result@, own@),
            forall|n: Seq<char>| #[trigger] names_of(result@).contains(n)
                <==> (names_of(old(result)@).contains(n) || free_in_fields(fields@.take(k as int), o, n)),
        decreases fields@.len() - k,
    {
        proof {
            assert(decreases_to!(fields => fields@[k as int].1));
        }
        let ghost r1 = result@;
        collect_free_vars_inner(&fields[k].1, own, result);
        proof {
            lemma_grew_trans(old(result)@, r1, result@, own@, own@);
            let pre = fields@.take(k + 1);
            assert(pre.drop_last() =~= fields@.take(k as int));
            assert(pre.last() == fields@[k as int]);
        }
        k = k + 1;
    }
    proof {
        assert(fields@.take(k as int) =~= fields@);
    }
}

/// `collect_free_vars_inner` over each expression of a list.
fn collect_free_in_exprs(v: &Vec<Expr>, own: &Vec<String>, result: &mut Vec<String>)
    ensures
        grew_with_free(old(result)@, final(result)@, own@),
        collected(old(result)@, final(result)@, |n: Seq<char>| free_in_exprs(v@, names_of(own@), n)),
    decreases v, 0nat,
{
    proof {
        assert(is_prefix(own@, own@));
        assert(result@ =~= old(result)@);
        assert(v@.take(0) =~= Seq::empty());
    }
    let ghost o = names_of(own@);
    let mut k: usize = 0;
    while k < v.len()
        invariant
            k <= v@.len(),
            o == names_of(own@),
            grew_with_free(old(result)@, result@, own@),
            forall|n: Seq<char>| #[trigger] names_of(result@).contains(n)
                <==> (names_of(old(result)@).contains(n) || free_in_exprs(v@.take(k as int), o, n)),
        decreases v@.len() - k,
    {
        proof {
            assert(decreases_to!(v => v@[k as int]));
        }
        let ghost r1 = result@;
        collect_free_vars_inner(&v[k], own, result);
        proof {
            lemma_grew_trans(old(result)@, r1, result@, own@, own@);
            let pre = v@.take(k + 1);
            assert(pre.drop_last() =~= v@.take(k as int));
            assert(pre.last() == v@[k as int]);
        }
        k = k + 1;
    }
    proof {
        assert(v@.take(k as int) =~= v@);
    }
}

/// The free names of a statement list: a `let` binds its name for the
/// statements after it, a function its parameters for its body.
pub fn collect_free_in_stmts(stmts: &Vec<Spanned<Stmt>>, own: &Vec<String>, result: &mut Vec<String>)
    ensures
        grew_with_free(old(result)@, final(result)@, own@),
        collected(old(result)@, final(result)@, |n: Seq<char>| free_in_stmts(stmts@, names_of(own@), n)),
    decreases stmts, 1nat,
{
    proof {
        assert(result@ =~= old(result)@);
        assert(stmts@.take(0) =~= Seq::empty());
    }
    let ghost o = names_of(own@);
    let mut local_own = copy_names(own);
    let mut k: usize = 0;
    while k < stmts.len()
        invariant
            k <= stmts@.len(),
            o == names_of(own@),
            is_prefix(own@, local_own@),
            grew_with_free(old(result)@, result@, own@),
            names_of(local_own@) == o + binds_of(stmts@.take(k as int)),
            forall|n: Seq<char>| #[trigger] names_of(result@).contains(n)
                <==> (names_of(old(result)@).contains(n) || free_in_stmts(stmts@.take(k as int), o, n)),
        decreases stmts@.len() - k,
    {
        proof {
            assert(decreases_to!(stmts => stmts@[k as int].node));
        }
        let ghost r1 = result@;
        let ghost o1 = local_own@;
        collect_free_in_stmt(&stmts[k].node, &mut local_own, result);
        proof {
            lemma_grew_trans(old(result)@, r1, result@, own@, o1);
            let pre = stmts@.take(k + 1);
            assert(pre.drop_last() =~= stmts@.take(k as int));
            assert(pre.last() == stmts@[k as int]);
            assert(names_of(local_own@) =~= o + binds_of(stmts@.take(k + 1)));
        }
        k = k + 1;
    }
    proof {
        assert(stmts@.take(k as int) =~= stmts@);
    }
}

/// The free names of each method, each with its own copy of `own`.
fn collect_free_in_methods(methods: &Vec<Spanned<Stmt>>, own: &Vec<String>, result: &mut Vec<String>)
    ensures
        grew_with_free(old(result)@, final(result)@, own@),
        collected(old(result)@, final(result)@, |n: Seq<char>| free_in_methods(methods@, names_of(own@), n)),
    decreases methods, 1nat,
{
    proof {
        assert(is_prefix(own@, own@));
        assert(result@ =~= old(result)@);
        assert(methods@.take(0) =~= Seq::empty());
    }
    let ghost o = names_of(own@);
    let mut k: usize = 0;
    while k < methods.len()
        invariant
            k <= methods@.len(),
            o == names_of(own@),
            grew_with_free(old(result)@, result@, own@),
            forall|n: Seq<char>| #[trigger] names_of(result@).contains(n)
                <==> (names_of(old(result)@).contains(n) || free_in_methods(methods@.take(k as int), o, n)),
        decreases methods@.len() - k,
    {
        proof {
            assert(decreases_to!(methods => methods@[k as int].node));
        }
        let mut method_own = copy_names(own);
        let ghost r1 = result@;
        collect_free_in_stmt(&methods[k].node, &mut method_own, result);
        proof {
            lemma_grew_trans(old(result)@, r1, result@, own@, own@);
            let pre = methods@.take(k + 1);
            assert(pre.drop_last() =~= methods@.take(k as int));
            assert(pre.last() == methods@[k as int]);
        }
        k = k + 1;
    }
    proof {
        assert(methods@.take(k as int) =~= methods@);
    }
}

/// The free names of one statement of a list, where `own` holds the names
/// bound so far; a `let` adds its name to `own`.
fn collect_free_in_stmt(stmt: &Stmt, own: &mut Vec<String>, result: &mut Vec<String>)
    ensures
        is_prefix(old(own)@, final(own)@),
        names_of(final(own)@) == names_of(old(own)@) + stmt_binds(*stmt),
        grew_with_free(old(result)@, final(result)@, old(own)@),
        forall|n: Seq<char>| #[trigger] names_of(final(result)@).contains(n) <==> (names_of(old(result)@).contains(n)
            || stmt_free(*stmt, names_of(old(own)@), n)),
    decreases stmt, 0nat,
{
    proof {
        assert(result@ =~= old(result)@);
        assert(own@ =~= old(own)@);
    }
    match stmt {
        Stmt::Let { name, init, .. } => {
            match init {
                Some(e) => collect_free_vars_inner(e, own, result),
                None => {},
            }
            let ghost before = own@;
            own.push(name.clone());
            proof {
                assert(names_of(own@) =~= names_of(before) + seq![name@]);
            }
        },
        Stmt::Expr(e) => collect_free_vars_inner(e, own, result),
        Stmt::Return(Some(e)) => collect_free_vars_inner(e, own, result),
        Stmt::Fn { params, body, .. } => {
            let mut fn_own = copy_names(own);
            let mut k: usize = 0;
            while k < params.len()
                invariant
                    k <= params@.len(),
                    is_prefix(own@, fn_own@),
                    names_of(fn_own@) == names_of(own@) + param_names(params@.subrange(0, k as int)),
                decreases params@.len() - k,
            {
                let ghost lo = fn_own@;
                fn_own.push(params[k].name.clone());
                k = k + 1;
                proof {
                    assert(names_of(fn_own@) =~= names_of(lo).push(params@[k - 1].name@));
                    assert(param_names(params@.subrange(0, k as int)) =~= param_names(params@.subrange(0, k - 1)).push(params@[k - 1].name@));
                    assert(names_of(fn_own@) =~= names_of(own@) + param_names(params@.subrange(0, k as int)));
                }
            }
            proof {
                assert(params@.subrange(0, params@.len() as int) =~= params@);
            }
            collect_free_in_stmts(body, &fn_own, result);
            proof {
                assert forall|i: int| old(result)@.len() <= i < result@.len() implies !names_of(own@).contains(#[trigger] result@[i]@) by {
                    if names_of(own@).contains(result@[i]@) {
                        lemma_own_grows(own@, fn_own@, result@[i]@);
                    }
                }
            }
        },
        Stmt::Impl { methods, .. } => collect_free_in_methods(methods, own, result),
        Stmt::Mod { body, .. } => collect_free_in_stmts(body, own, result),
        _ => {},
    }
    proof {
        if !(stmt is Let) {
            assert(names_of(own@) =~= names_of(old(own)@) + stmt_binds(*stmt));
        }
        assert forall|n: Seq<char>| #[trigger] names_of(result@).contains(n) <==> (names_of(old(result)@).contains(n)
            || stmt_free(*stmt, names_of(old(own)@), n)) by {
        }
    }
}

impl FunctionCompiler {
    /// Compile a lambda: load the enclosing function's locals it captures,
    /// compile its body as a function of its own (captures first, then
    /// parameters), and make a closure of it.
    fn compile_lambda(&mut self, ctx: &mut CompileContext, expr: &Expr)
        requires
            old(self).wf(),
            old(ctx).wf(),
            expr is Lambda,
        ensures
            old(self).balanced(*final(self)),
            old(ctx).kept(*final(ctx)),
            exists|c: u16| #[trigger] ends_with(final(self).chunk.code@, Opcode::NewClosure(old(ctx).lambda_counter as u16, c)),
            final(ctx).lambda_fns@.len() > old(ctx).lambda_fns@.len(),
            final(ctx).lambda_fns@.last().name@ == "__lambda_"@ + decimal(old(ctx).lambda_counter as nat),
        decreases expr, 1nat,
    {
        proof {
            lemma_follows_refl(*self);
        }
        match expr {
            Expr::Lambda { params, body, .. } => {
                let mut own: Vec<String> = Vec::new();
                let mut k: usize = 0;
                while k < params.len()
                    invariant
                        k <= params@.len(),
                    decreases params@.len() - k,
                {
                    own.push(params[k].name.clone());
                    k = k + 1;
                }
                let free_vars = collect_free_vars(body, &own);
                let mut upvalue_names: Vec<String> = Vec::new();
                let mut i: usize = 0;
                while i < free_vars.len()
                    invariant
                        i <= free_vars@.len(),
                        old(self).balanced(*self),
                        *ctx == *old(ctx),
                    decreases free_vars@.len() - i,
                {
                    match self.resolve_local(free_vars[i].as_str()) {
                        Some(idx) => {
                            self.emit_op(Opcode::LoadLocal(idx));
                            upvalue_names.push(free_vars[i].clone());
                        },
                        None => {},
                    }
                    i = i + 1;
                }
                let fn_idx = ctx.lambda_counter;
                if ctx.lambda_counter < usize::MAX {
                    ctx.lambda_counter = ctx.lambda_counter + 1;
                } else {
                    ctx.lambda_counter = 0;
                }
                #[verifier::truncate]
                let ups = upvalue_names.len() as u32;
                #[verifier::truncate]
                let nparams = params.len() as u32;
                let arity = if ups <= u32::MAX - nparams { ups + nparams } else { nparams - (u32::MAX - ups) - 1 };
                let mut fn_name = String::new();
                push_str_chars(&mut fn_name, "__lambda_");
                push_decimal(&mut fn_name, fn_idx as u64);
                let mut lambda_fc = FunctionCompiler::new(fn_name, arity);
                lambda_fc.enter_scope();
                let mut u: usize = 0;
                while u < upvalue_names.len()
                    invariant
                        u <= upvalue_names@.len(),
                        lambda_fc.wf(),
                        lambda_fc.scope_marks@.len() == 1,
                        lambda_fc.name@ == "__lambda_"@ + decimal(fn_idx as nat),
                    decreases upvalue_names@.len() - u,
                {
                    lambda_fc.add_local(upvalue_names[u].as_str());
                    u = u + 1;
                }
                let mut p: usize = 0;
                while p < params.len()
                    invariant
                        p <= params@.len(),
                        lambda_fc.wf(),
                        lambda_fc.scope_marks@.len() == 1,
                        lambda_fc.name@ == "__lambda_"@ + decimal(fn_idx as nat),
                    decreases params@.len() - p,
                {
                    lambda_fc.add_local(params[p].name.as_str());
                    p = p + 1;
                }
                lambda_fc.compile_expr(ctx, body);
                lambda_fc.emit_op(Opcode::Return);
                lambda_fc.exit_scope();
                ctx.lambda_fns.push(lambda_fc.finalize());
                #[verifier::truncate]
                let closure_idx = fn_idx as u16;
                #[verifier::truncate]
                let count = upvalue_names.len() as u16;
                let ghost mid = self.chunk.code@;
                self.emit_op(Opcode::NewClosure(closure_idx, count));
                proof {
                    lemma_ends_with(mid, Opcode::NewClosure(closure_idx, count));
                }
            },
            _ => {},
        }
    }
}


/// `names` with `n` added at the end unless it is there already.
pub open spec fn with_name(names: Seq<Seq<char>>, n: Seq<char>) -> Seq<Seq<char>> {
    if names.contains(n) {
        names
    } else {
        names.push(n)
    }
}

/// `names` with each of `ns` added in turn.
pub open spec fn with_names(names: Seq<Seq<char>>, ns: Seq<Seq<char>>) -> Seq<Seq<char>>
    decreases ns.len(),
{
    if ns.len() == 0 {
        names
    } else {
        with_name(with_names(names, ns.drop_last()), ns.last())
    }
}

/// The names `Type::method` of the functions among an impl's methods, in order.
pub open spec fn method_names_of(ty: Seq<char>, methods: Seq<Spanned<Stmt>>) -> Seq<Seq<char>>
    decreases methods.len(),
{
    if methods.len() == 0 {
        Seq::empty()
    } else {
        let rest = method_names_of(ty, methods.drop_last());
        match methods.last().node {
            Stmt::Fn { name, .. } => rest.push(ty + "::"@ + name@),
            _ => rest,
        }
    }
}

/// The global names after registering a statement: a function's or `let`'s
/// name, an impl's qualified method names, a module's declarations, and the
/// last segment of a `use` path.
pub open spec fn globals_after_stmt(names: Seq<Seq<char>>, s: Stmt) -> Seq<Seq<char>>
    decreases s, 1nat,
{
    match s {
        Stmt::Fn { name, .. } => with_name(names, name@),
        Stmt::Let { name, .. } => with_name(names, name@),
        Stmt::Impl { self_type, methods, .. } => with_names(names, method_names_of(self_type@, methods@)),
        Stmt::Mod { body, .. } => globals_after_stmts(names, body@),
        Stmt::Use { path, .. } => if path@.len() > 0 {
            with_name(names, path@.last()@)
        } else {
            names
        },
        _ => names,
    }
}

/// The global names after registering each statement in turn.
pub open spec fn globals_after_stmts(names: Seq<Seq<char>>, stmts: Seq<Spanned<Stmt>>) -> Seq<Seq<char>>
    decreases stmts, 0nat,
{
    if stmts.len() == 0 {
        names
    } else {
        globals_after_stmt(globals_after_stmts(names, stmts.drop_last()), stmts.last().node)
    }
}

proof fn lemma_with_names_step(names: Seq<Seq<char>>, ns: Seq<Seq<char>>, n: Seq<char>)
    ensures
        with_names(names, ns.push(n)) == with_name(with_names(names, ns), n),
{
    assert(ns.push(n).drop_last() =~= ns);
}

/// Give `name` a global slot, at the end, unless it has one.
fn add_global(globals: &mut Vec<String>, order: &mut Vec<String>, name: &String)
    requires
        names_of(old(globals)@) == names_of(old(order)@),
    ensures
        names_of(final(globals)@) == names_of(final(order)@),
        names_of(final(globals)@) == with_name(names_of(old(globals)@), name@),
{
    if !contains_name(globals, name) {
        globals.push(name.clone());
        order.push(name.clone());
        proof {
            assert(names_of(globals@) =~= names_of(old(globals)@).push(name@));
            assert(names_of(order@) =~= names_of(old(order)@).push(name@));
        }
    }
}

/// `<a>::<b>`.
fn qualified(a: &String, b: &String) -> (q: String)
    ensures
        q@ == a@ + "::"@ + b@,
{
    let mut q = a.clone();
    push_str_chars(&mut q, "::");
    push_str_chars(&mut q, b.as_str());
    q
}

/// Give each name a statement declares a global slot: functions, `let`s,
/// impl methods as `Type::method`, a module's declarations, and the name a
/// `use` brings in.
pub fn register_global_stmt(stmt: &Stmt, globals: &mut Vec<String>, global_order: &mut Vec<String>)
    requires
        names_of(old(globals)@) == names_of(old(global_order)@),
    ensures
        names_of(final(globals)@) == names_of(final(global_order)@),
        names_of(final(globals)@) == globals_after_stmt(names_of(old(globals)@), *stmt),
    decreases stmt, 1nat,
{
    match stmt {
        Stmt::Fn { name, .. } => add_global(globals, global_order, name),
        Stmt::Let { name, .. } => add_global(globals, global_order, name),
        Stmt::Impl { self_type, methods, .. } => {
            let ghost start = names_of(globals@);
            let mut k: usize = 0;
            while k < methods.len()
                invariant
                    k <= methods@.len(),
                    names_of(globals@) == names_of(global_order@),
                    names_of(globals@) == with_names(start, method_names_of(self_type@, methods@.subrange(0, k as int))),
                decreases methods@.len() - k,
            {
                let ghost pre = methods@.subrange(0, k as int);
                assert(methods@.subrange(0, k + 1).drop_last() =~= pre);
                match &methods[k].node {
                    Stmt::Fn { name, .. } => {
                        let q = qualified(self_type, name);
                        add_global(globals, global_order, &q);
                        proof {
                            lemma_with_names_step(start, method_names_of(self_type@, pre), q@);
                        }
                    },
                    _ => {},
                }
                k = k + 1;
            }
            assert(methods@.subrange(0, methods@.len() as int) =~= methods@);
        },
        Stmt::Mod { body, .. } => register_globals(body, globals, global_order),
        Stmt::Use { path, .. } => {
            let n = path.len();
            if n > 0 {
                add_global(globals, global_order, &path[n - 1]);
            }
        },
        _ => {},
    }
}

/// `register_global_stmt` for each statement in turn.
pub fn register_globals(stmts: &Vec<Spanned<Stmt>>, globals: &mut Vec<String>, global_order: &mut Vec<String>)
    requires
        names_of(old(globals)@) == names_of(old(global_order)@),
    ensures
        names_of(final(globals)@) == names_of(final(global_order)@),
        names_of(final(globals)@) == globals_after_stmts(names_of(old(globals)@), stmts@),
    decreases stmts, 0nat,
{
    let ghost start = names_of(globals@);
    let mut k: usize = 0;
    assert(stmts@.subrange(0, 0) =~= Seq::<Spanned<Stmt>>::empty());
    while k < stmts.len()
        invariant
            k <= stmts@.len(),
            names_of(globals@) == names_of(global_order@),
            names_of(globals@) == globals_after_stmts(start, stmts@.subrange(0, k as int)),
        decreases stmts@.len() - k,
    {
        proof {
            assert(decreases_to!(stmts => stmts@[k as int].node));
            assert(stmts@.subrange(0, k + 1).drop_last() =~= stmts@.subrange(0, k as int));
        }
        register_global_stmt(&stmts[k].node, globals, global_order);
        k = k + 1;
    }
    assert(stmts@.subrange(0, stmts@.len() as int) =~= stmts@);
}

/// Record index `idx` for user function `name`, replacing an earlier one.
fn set_function_index(names: &mut Vec<(String, usize)>, name: String, idx: usize)
    ensures
        forall|n: Seq<char>| n != name@ ==> assoc(final(names)@, n) == assoc(old(names)@, n),
        assoc(final(names)@, name@) == Some(idx),
        final(names)@.len() >= old(names)@.len(),
{
    let mut i: usize = 0;
    while i < names.len()
        invariant
            i <= names@.len(),
            names@ == old(names)@,
            forall|j: int| 0 <= j < i ==> names@[j].0@ != name@,
        decreases names@.len() - i,
    {
        if names[i].0 == name {
            let ghost before = names@;
            let ghost key = name;
            names.set(i, (name, idx));
            proof {
                lemma_assoc_set(before, i as int, key, idx);
            }
            return;
        }
        i = i + 1;
    }
    let ghost before = names@;
    let ghost key = name@;
    names.push((name, idx));
    proof {
        assert(names@.drop_last() =~= before);
        lemma_assoc_push(before, key, idx, names@);
    }
}

proof fn lemma_assoc_set(v: Seq<(String, usize)>, i: int, s: String, idx: usize)
    requires
        0 <= i < v.len(),
        s@ == v[i].0@,
        forall|j: int| 0 <= j < i ==> v[j].0@ != v[i].0@,
    ensures
        forall|n: Seq<char>| n != s@ ==> assoc(v.update(i, (s, idx)), n) == assoc(v, n),
        assoc(v.update(i, (s, idx)), s@) == Some(idx),
    decreases i,
{
    let w = v.update(i, (s, idx));
    if i == 0 {
        assert(w.drop_first() =~= v.drop_first());
    } else {
        assert(v.drop_first()[i - 1] == v[i]);
        lemma_assoc_set(v.drop_first(), i - 1, s, idx);
        assert(w.drop_first() =~= v.drop_first().update(i - 1, (s, idx)));
        assert(w[0] == v[0]);
    }
    assert forall|n: Seq<char>| n != s@ implies assoc(w, n) == assoc(v, n) by {
        assert(w.len() > 0 && v.len() > 0);
        assert(assoc(w, n) == (if w[0].0@ == n { Some(w[0].1) } else { assoc(w.drop_first(), n) }));
        assert(assoc(v, n) == (if v[0].0@ == n { Some(v[0].1) } else { assoc(v.drop_first(), n) }));
        if i == 0 {
            assert(w[0].0@ == s@);
        } else {
            assert(assoc(w.drop_first(), n) == assoc(v.drop_first().update(i - 1, (s, idx)), n));
        }
    }
    assert(assoc(w, s@) == (if w[0].0@ == s@ { Some(w[0].1) } else { assoc(w.drop_first(), s@) }));
}

proof fn lemma_assoc_push(v: Seq<(String, usize)>, name: Seq<char>, idx: usize, w: Seq<(String, usize)>)
    requires
        forall|j: int| 0 <= j < v.len() ==> v[j].0@ != name,
        w.len() == v.len() + 1,
        w.drop_last() == v,
        w.last().0@ == name,
        w.last().1 == idx,
    ensures
        forall|n: Seq<char>| n != name ==> assoc(w, n) == assoc(v, n),
        assoc(w, name) == Some(idx),
    decreases v.len(),
{
    if v.len() > 0 {
        assert(w.drop_first().drop_last() =~= v.drop_first());
        assert(w[0] == v[0]);
        lemma_assoc_push(v.drop_first(), name, idx, w.drop_first());
    } else {
        assert(w.drop_first().len() == 0);
        assert(w[0] == w.last());
    }
    assert forall|n: Seq<char>| n != name implies assoc(w, n) == assoc(v, n) by {
        assert(assoc(w, n) == (if w[0].0@ == n { Some(w[0].1) } else { assoc(w.drop_first(), n) }));
        if v.len() == 0 {
            assert(w[0].0@ == name);
            assert(assoc(w.drop_first(), n) == None::<usize>);
        } else {
            assert(assoc(v, n) == (if v[0].0@ == n { Some(v[0].1) } else { assoc(v.drop_first(), n) }));
        }
    }
    assert(assoc(w, name) == (if w[0].0@ == name { Some(w[0].1) } else { assoc(w.drop_first(), name) }));
}

/// What registering function indices leaves, for the names `ns`: every
/// other name as it was, no entry dropped, and, unless the list reached the
/// largest length, an index for each of `ns`.
pub open spec fn fns_registered(before: Seq<(String, usize)>, after: Seq<(String, usize)>, ns: Seq<Seq<char>>) -> bool {
    &&& after.len() >= before.len()
    &&& forall|n: Seq<char>| !ns.contains(n) ==> #[trigger] assoc(after, n) == assoc(before, n)
    &&& after.len() < usize::MAX ==> forall|n: Seq<char>| ns.contains(n) ==> (#[trigger] assoc(after, n)) is Some
}

proof fn lemma_contains_push(s: Seq<Seq<char>>, x: Seq<char>, n: Seq<char>)
    ensures
        s.push(x).contains(n) == (s.contains(n) || x == n),
{
    if s.push(x).contains(n) {
        let i = choose|i: int| 0 <= i < s.push(x).len() && s.push(x)[i] == n;
        if i < s.len() {
            assert(s[i] == n);
        }
    }
    if s.contains(n) {
        let i = choose|i: int| 0 <= i < s.len() && s[i] == n;
        assert(s.push(x)[i] == n);
    }
    if x == n {
        assert(s.push(x)[s.len() as int] == n);
    }
}

proof fn lemma_contains_add(a: Seq<Seq<char>>, b: Seq<Seq<char>>, n: Seq<char>)
    ensures
        (a + b).contains(n) == (a.contains(n) || b.contains(n)),
{
    if (a + b).contains(n) {
        let i = choose|i: int| 0 <= i < (a + b).len() && (a + b)[i] == n;
        if i < a.len() {
            assert(a[i] == n);
        } else {
            assert(b[i - a.len()] == n);
        }
    }
    if a.contains(n) {
        let i = choose|i: int| 0 <= i < a.len() && a[i] == n;
        assert((a + b)[i] == n);
    }
    if b.contains(n) {
        let i = choose|i: int| 0 <= i < b.len() && b[i] == n;
        assert((a + b)[a.len() + i] == n);
    }
}

/// Registering names `ns1`, then `ns2`, registers `ns1 + ns2`.
proof fn lemma_fns_registered_trans(a: Seq<(String, usize)>, b: Seq<(String, usize)>, c: Seq<(String, usize)>, ns1: Seq<Seq<char>>, ns2: Seq<Seq<char>>)
    requires
        fns_registered(a, b, ns1),
        fns_registered(b, c, ns2),
    ensures
        fns_registered(a, c, ns1 + ns2),
{
    assert forall|n: Seq<char>| !(ns1 + ns2).contains(n) implies #[trigger] assoc(c, n) == assoc(a, n) by {
        lemma_contains_add(ns1, ns2, n);
    }
    if c.len() < usize::MAX {
        assert forall|n: Seq<char>| (ns1 + ns2).contains(n) implies (#[trigger] assoc(c, n)) is Some by {
            lemma_contains_add(ns1, ns2, n);
            if ns1.contains(n) && !ns2.contains(n) {
                assert(assoc(b, n) is Some);
            }
        }
    }
}

/// Number each user function from 1 in declaration order: functions, impl
/// methods as `Type::method`, and a module's functions; a name declared again
/// takes the new number.
pub fn register_function_names(stmt: &Stmt, function_names: &mut Vec<(String, usize)>)
    ensures
        fns_registered(old(function_names)@, final(function_names)@, stmt_fns(*stmt)),
        (*stmt matches Stmt::Fn { name, .. } && old(function_names)@.len() < usize::MAX)
            ==> assoc(final(function_names)@, stmt->Fn_name@) == Some((old(function_names)@.len() + 1) as usize),
    decreases stmt, 1nat,
{
    match stmt {
        Stmt::Fn { name, .. } => {
            let n = function_names.len();
            if n < usize::MAX {
                set_function_index(function_names, name.clone(), n + 1);
                proof {
                    assert forall|m: Seq<char>| !stmt_fns(*stmt).contains(m) implies #[trigger] assoc(function_names@, m)
                        == assoc(old(function_names)@, m) by {
                        if m == name@ {
                            assert(stmt_fns(*stmt)[0] == m);
                        }
                    }
                    assert forall|m: Seq<char>| stmt_fns(*stmt).contains(m) implies (#[trigger] assoc(function_names@, m)) is Some by {
                        let i = choose|i: int| 0 <= i < stmt_fns(*stmt).len() && stmt_fns(*stmt)[i] == m;
                        assert(m == name@);
                    }
                }
            }
        },
        Stmt::Impl { self_type, methods, .. } => {
            let mut k: usize = 0;
            proof {
                assert(methods@.take(0) =~= Seq::<Spanned<Stmt>>::empty());
            }
            while k < methods.len()
                invariant
                    k <= methods@.len(),
                    fns_registered(old(function_names)@, function_names@, method_names_of(self_type@, methods@.take(k as int))),
                decreases methods@.len() - k,
            {
                proof {
                    assert(methods@.take(k + 1).drop_last() =~= methods@.take(k as int));
                    assert(methods@.take(k + 1).last() == methods@[k as int]);
                }
                let ghost before = function_names@;
                let ghost ns = method_names_of(self_type@, methods@.take(k as int));
                match &methods[k].node {
                    Stmt::Fn { name, .. } => {
                        let q = qualified(self_type, name);
                        let n = function_names.len();
                        let ghost qv = q@;
                        if n < usize::MAX {
                            set_function_index(function_names, q, n + 1);
                        }
                        proof {
                            assert(method_names_of(self_type@, methods@.take(k + 1)) == ns.push(qv));
                            assert forall|m: Seq<char>| !ns.push(qv).contains(m) implies #[trigger] assoc(function_names@, m)
                                == assoc(old(function_names)@, m) by {
                                lemma_contains_push(ns, qv, m);
                            }
                            if function_names@.len() < usize::MAX {
                                assert forall|m: Seq<char>| ns.push(qv).contains(m) implies (#[trigger] assoc(function_names@, m)) is Some by {
                                    lemma_contains_push(ns, qv, m);
                                    if m != qv {
                                        assert(assoc(before, m) is Some);
                                    }
                                }
                            }
                        }
                    },
                    _ => {},
                }
                k = k + 1;
            }
            proof {
                assert(methods@.take(methods@.len() as int) =~= methods@);
            }
        },
        Stmt::Mod { body, .. } => register_function_name_list(body, function_names),
        _ => {},
    }
}


/// `register_function_names` for each statement in turn.
pub fn register_function_name_list(stmts: &Vec<Spanned<Stmt>>, function_names: &mut Vec<(String, usize)>)
    ensures
        fns_registered(old(function_names)@, final(function_names)@, fns_of(stmts@)),
    decreases stmts, 0nat,
{
    let mut k: usize = 0;
    proof {
        assert(stmts@.take(0) =~= Seq::<Spanned<Stmt>>::empty());
    }
    while k < stmts.len()
        invariant
            k <= stmts@.len(),
            fns_registered(old(function_names)@, function_names@, fns_of(stmts@.take(k as int))),
        decreases stmts@.len() - k,
    {
        proof {
            assert(decreases_to!(stmts => stmts@[k as int].node));
            assert(stmts@.take(k + 1).drop_last() =~= stmts@.take(k as int));
            assert(stmts@.take(k + 1).last() == stmts@[k as int]);
        }
        let ghost before = function_names@;
        register_function_names(&stmts[k].node, function_names);
        proof {
            lemma_fns_registered_trans(old(function_names)@, before, function_names@, fns_of(stmts@.take(k as int)),
                stmt_fns(stmts@[k as int].node));
        }
        k = k + 1;
    }
    proof {
        assert(stmts@.take(stmts@.len() as int) =~= stmts@);
    }
}


impl FunctionCompiler {
    /// Compile a function body at the top scope of this compiler: each
    /// statement on its own line, a final expression statement as the value
    /// returned, else `nil`; then return.
    fn compile_body(&mut self, ctx: &mut CompileContext, stmts: &Vec<Spanned<Stmt>>)
        requires
            old(self).wf(),
            old(ctx).wf(),
        ensures
            final(self).wf(),
            old(ctx).kept(*final(ctx)),
            final(self).name == old(self).name,
            final(self).arity == old(self).arity,
            final(self).scope_marks@ == old(self).scope_marks@,
            is_prefix(old(self).locals@, final(self).locals@),
            forall|i: int| old(self).locals@.len() <= i < final(self).locals@.len()
                ==> (#[trigger] final(self).locals@[i]).depth == old(self).depth(),
            ends_with(final(self).chunk.code@, Opcode::Return),
            program_clean(stmts@) && old(self).depth() == 0 ==> final(ctx).errors@ == old(ctx).errors@,
            all_expr_stmts(stmts@) ==> body_compiled(stmts@, *old(self), *final(self), *old(ctx), *final(ctx)),
    {
        let count = stmts.len();
        let mut ends_with_value = false;
        let ghost es = stmt_exprs(stmts@);
        let ghost mut ms: Seq<FunctionCompiler> = seq![*self];
        let ghost mut cs: Seq<CompileContext> = seq![*ctx];
        let mut k: usize = 0;
        while k < count
            invariant
                count == stmts@.len(),
                k <= count,
                self.wf(),
                old(ctx).kept(*ctx),
                self.name == old(self).name,
                self.arity == old(self).arity,
                self.scope_marks@ == old(self).scope_marks@,
                is_prefix(old(self).locals@, self.locals@),
                forall|i: int| old(self).locals@.len() <= i < self.locals@.len()
                    ==> (#[trigger] self.locals@[i]).depth == old(self).depth(),
                program_clean(stmts@) && old(self).depth() == 0 ==> ctx.errors@ == old(ctx).errors@,
                es == stmt_exprs(stmts@),
                all_expr_stmts(stmts@) ==> {
                    &&& ms.len() == k + 1
                    &&& cs.len() == k + 1
                    &&& ms[0] == *old(self)
                    &&& cs[0] == *old(ctx)
                    &&& ms.last() == *self
                    &&& cs.last() == *ctx
                    &&& forall|i: int| #![trigger es[i]] 0 <= i < k ==> body_step(es[i], i == es.len() - 1, ms[i], ms[i + 1],
                        cs[i], cs[i + 1])
                    &&& k > 0 ==> (ends_with_value <==> k == count)
                },
                k == 0 ==> !ends_with_value,
            decreases count - k,
        {
            let ghost (s_pre, c_pre) = (*self, *ctx);
            let start = stmts[k].span.start();
            self.set_line_by_offset(ctx, start);
            proof {
                assert(relined(s_pre, *self));
            }
            let ghost before = *self;
            ends_with_value = false;
            match &stmts[k].node {
                Stmt::Expr(e) => {
                    if k + 1 == count {
                        let ghost (s0, c0) = (*self, *ctx);
                        self.compile_expr(ctx, e);
                        proof {
                            if program_clean(stmts@) {
                                assert(stmt_clean(stmts@[k as int].node));
                                lemma_clean_compiles(*e, s0, *self, c0, *ctx);
                            }
                        }
                        ends_with_value = true;
                    } else {
                        self.compile_stmt(ctx, &stmts[k].node);
                    }
                },
                _ => self.compile_stmt(ctx, &stmts[k].node),
            }
            proof {
                assert forall|i: int| old(self).locals@.len() <= i < self.locals@.len()
                    implies (#[trigger] self.locals@[i]).depth == old(self).depth() by {
                    if i < before.locals@.len() {
                        assert(self.locals@[i] == before.locals@[i]);
                    }
                }
                if program_clean(stmts@) {
                    assert(stmt_clean(stmts@[k as int].node));
                }
                if all_expr_stmts(stmts@) {
                    assert(stmts@[k as int].node is Expr);
                    assert(stmts@[k as int].node == Stmt::Expr(es[k as int]));
                    assert(body_step(es[k as int], k as int == es.len() - 1, s_pre, *self, c_pre, *ctx));
                    let ms2 = ms.push(*self);
                    let cs2 = cs.push(*ctx);
                    assert forall|i: int| #![trigger es[i]] 0 <= i < k + 1 implies body_step(es[i], i == es.len() - 1,
                        ms2[i], ms2[i + 1], cs2[i], cs2[i + 1]) by {
                        if i < k {
                            assert(ms2[i] == ms[i] && ms2[i + 1] == ms[i + 1] && cs2[i] == cs[i] && cs2[i + 1] == cs[i + 1]);
                        }
                    }
                    ms = ms2;
                    cs = cs2;
                }
            }
            k = k + 1;
        }
        let ghost last = *self;
        if !ends_with_value {
            self.none();
        }
        let ghost mid = self.chunk.code@;
        self.emit_op(Opcode::Return);
        proof {
            lemma_ends_with(mid, Opcode::Return);
            if all_expr_stmts(stmts@) {
                assert(body_traced(stmt_exprs(stmts@), ms, cs));
                if count == 0 {
                    assert(self.chunk.code@ == last.chunk.code@ + encode(
                        Opcode::LoadConst(const_index(last.chunk.constants@, Constant::Nil)),
                    ) + encode(Opcode::Return));
                } else {
                    assert(self.chunk.code@ == last.chunk.code@ + Seq::<u8>::empty() + encode(Opcode::Return));
                }
            }
        }
    }
}

/// The names of the user functions a statement declares, in order: a
/// function, the methods of an impl block as `Type::method`, and what a
/// module declares.
pub open spec fn stmt_fns(s: Stmt) -> Seq<Seq<char>>
    decreases s, 1nat,
{
    match s {
        Stmt::Fn { name, .. } => seq![name@],
        Stmt::Impl { self_type, methods, .. } => method_names_of(self_type@, methods@),
        Stmt::Mod { body, .. } => fns_of(body@),
        _ => Seq::empty(),
    }
}

/// `stmt_fns` for each statement in turn.
pub open spec fn fns_of(stmts: Seq<Spanned<Stmt>>) -> Seq<Seq<char>>
    decreases stmts, 0nat,
{
    if stmts.len() == 0 {
        Seq::empty()
    } else {
        fns_of(stmts.drop_last()) + stmt_fns(stmts.last().node)
    }
}

/// The names of compiled functions.
pub open spec fn fn_names(fs: Seq<BytecodeFn<Constant>>) -> Seq<Seq<char>> {
    fs.map_values(|f: BytecodeFn<Constant>| f.name@)
}

/// The arities of compiled functions.
pub open spec fn fn_arities(fs: Seq<BytecodeFn<Constant>>) -> Seq<u32> {
    fs.map_values(|f: BytecodeFn<Constant>| f.arity)
}

/// The parameter counts of the methods of an impl block, as `method_names_of`
/// lists them.
pub open spec fn method_arities_of(methods: Seq<Spanned<Stmt>>) -> Seq<u32>
    decreases methods.len(),
{
    if methods.len() == 0 {
        Seq::empty()
    } else {
        let rest = method_arities_of(methods.drop_last());
        match methods.last().node {
            Stmt::Fn { params, .. } => rest.push(params@.len() as u32),
            _ => rest,
        }
    }
}

/// The parameter counts of the user functions a statement declares, as
/// `stmt_fns` lists them.
pub open spec fn stmt_arities(s: Stmt) -> Seq<u32>
    decreases s, 1nat,
{
    match s {
        Stmt::Fn { params, .. } => seq![params@.len() as u32],
        Stmt::Impl { methods, .. } => method_arities_of(methods@),
        Stmt::Mod { body, .. } => arities_of(body@),
        _ => Seq::empty(),
    }
}

/// `stmt_arities` for each statement in turn.
pub open spec fn arities_of(stmts: Seq<Spanned<Stmt>>) -> Seq<u32>
    decreases stmts, 0nat,
{
    if stmts.len() == 0 {
        Seq::empty()
    } else {
        arities_of(stmts.drop_last()) + stmt_arities(stmts.last().node)
    }
}

/// Compile a user function: its parameters are its first locals.
fn compile_function(ctx: &mut CompileContext, name: String, params: &Vec<Param>, body: &Vec<Spanned<Stmt>>) -> (f: BytecodeFn<Constant>)
    requires
        old(ctx).wf(),
    ensures
        old(ctx).kept(*final(ctx)),
        f.name == name,
        f.arity == params@.len() as u32,
        lines_parallel(f),
{
    #[verifier::truncate]
    let arity = params.len() as u32;
    let mut fc = FunctionCompiler::new(name, arity);
    fc.enter_scope();
    let mut k: usize = 0;
    while k < params.len()
        invariant
            k <= params@.len(),
            fc.wf(),
            fc.name == name,
            fc.arity == arity,
            arity == params@.len() as u32,
            fc.scope_marks@.len() == 1,
        decreases params@.len() - k,
    {
        fc.add_local(params[k].name.as_str());
        k = k + 1;
    }
    fc.compile_body(ctx, body);
    fc.exit_scope();
    fc.finalize()
}

/// Compile the user functions among `stmts`, impl methods as `Type::method`
/// and the functions of modules, appending them to `functions`.
fn compile_functions(stmts: &Vec<Spanned<Stmt>>, functions: &mut Vec<BytecodeFn<Constant>>, ctx: &mut CompileContext)
    requires
        old(ctx).wf(),
        forall|i: int| 0 <= i < old(functions)@.len() ==> lines_parallel(#[trigger] old(functions)@[i]),
    ensures
        old(ctx).kept(*final(ctx)),
        is_prefix(old(functions)@, final(functions)@),
        forall|i: int| 0 <= i < final(functions)@.len() ==> lines_parallel(#[trigger] final(functions)@[i]),
        fn_names(final(functions)@) == fn_names(old(functions)@) + fns_of(stmts@),
        fn_arities(final(functions)@) == fn_arities(old(functions)@) + arities_of(stmts@),
        program_clean(stmts@) ==> final(ctx).errors@ == old(ctx).errors@,
    decreases stmts, 0nat,
{
    let mut k: usize = 0;
    proof {
        assert(stmts@.take(0) =~= Seq::<Spanned<Stmt>>::empty());
        assert(fn_names(functions@) =~= fn_names(old(functions)@) + fns_of(stmts@.take(0)));
        assert(fn_arities(functions@) =~= fn_arities(old(functions)@) + arities_of(stmts@.take(0)));
    }
    while k < stmts.len()
        invariant
            k <= stmts@.len(),
            old(ctx).kept(*ctx),
            is_prefix(old(functions)@, functions@),
            forall|i: int| 0 <= i < functions@.len() ==> lines_parallel(#[trigger] functions@[i]),
            fn_names(functions@) == fn_names(old(functions)@) + fns_of(stmts@.take(k as int)),
            fn_arities(functions@) == fn_arities(old(functions)@) + arities_of(stmts@.take(k as int)),
            program_clean(stmts@) ==> ctx.errors@ == old(ctx).errors@,
        decreases stmts@.len() - k,
    {
        proof {
            if program_clean(stmts@) {
                assert(stmt_clean(stmts@[k as int].node));
            }
        }
        proof {
            assert(decreases_to!(stmts => stmts@[k as int].node));
            assert(stmts@.take(k + 1).drop_last() =~= stmts@.take(k as int));
            assert(stmts@.take(k + 1).last() == stmts@[k as int]);
        }
        let ghost before = fn_names(functions@);
        let ghost before_ar = fn_arities(functions@);
        match &stmts[k].node {
            Stmt::Fn { name, params, body, .. } => {
                let f = compile_function(ctx, name.clone(), params, body);
                let ghost fv = functions@;
                functions.push(f);
                proof {
                    assert(fn_names(functions@) =~= fn_names(fv).push(f.name@));
                    assert(fn_names(functions@) =~= before + seq![name@]);
                    assert(fn_arities(functions@) =~= fn_arities(fv).push(f.arity));
                    assert(fn_arities(functions@) =~= before_ar + seq![params@.len() as u32]);
                }
            },
            Stmt::Impl { self_type, methods, .. } => {
                let mut m: usize = 0;
                proof {
                    assert(methods@.take(0) =~= Seq::<Spanned<Stmt>>::empty());
                    assert(fn_names(functions@) =~= before + method_names_of(self_type@, methods@.take(0)));
                    assert(fn_arities(functions@) =~= before_ar + method_arities_of(methods@.take(0)));
                }
                while m < methods.len()
                    invariant
                        m <= methods@.len(),
                        old(ctx).kept(*ctx),
                        is_prefix(old(functions)@, functions@),
                        forall|i: int| 0 <= i < functions@.len() ==> lines_parallel(#[trigger] functions@[i]),
                        fn_names(functions@) == before + method_names_of(self_type@, methods@.take(m as int)),
                        fn_arities(functions@) == before_ar + method_arities_of(methods@.take(m as int)),
                    decreases methods@.len() - m,
                {
                    proof {
                        assert(methods@.take(m + 1).drop_last() =~= methods@.take(m as int));
                        assert(methods@.take(m + 1).last() == methods@[m as int]);
                    }
                    match &methods[m].node {
                        Stmt::Fn { name, params, body, .. } => {
                            let q = qualified(self_type, name);
                            let ghost qv = q@;
                            let f = compile_function(ctx, q, params, body);
                            let ghost fv = functions@;
                            functions.push(f);
                            proof {
                                assert(fn_names(functions@) =~= fn_names(fv).push(qv));
                                assert(fn_arities(functions@) =~= fn_arities(fv).push(f.arity));
                            }
                        },
                        _ => {},
                    }
                    m = m + 1;
                }
                proof {
                    assert(methods@.take(methods@.len() as int) =~= methods@);
                }
            },
            Stmt::Mod { body, .. } => compile_functions(body, functions, ctx),
            _ => {},
        }
        proof {
            assert(fns_of(stmts@.take(k + 1)) == fns_of(stmts@.take(k as int)) + stmt_fns(stmts@[k as int].node));
            assert(fn_names(functions@) =~= before + stmt_fns(stmts@[k as int].node));
            assert(fn_names(functions@) =~= fn_names(old(functions)@) + fns_of(stmts@.take(k + 1)));
            assert(arities_of(stmts@.take(k + 1)) == arities_of(stmts@.take(k as int)) + stmt_arities(stmts@[k as int].node));
            assert(fn_arities(functions@) =~= before_ar + stmt_arities(stmts@[k as int].node));
            assert(fn_arities(functions@) =~= fn_arities(old(functions)@) + arities_of(stmts@.take(k + 1)));
        }
        k = k + 1;
    }
    proof {
        assert(stmts@.take(stmts@.len() as int) =~= stmts@);
    }
}

/// Compile a checked program to bytecode: the top-level statements as the
/// function `__main__` (index 0), then the user functions, then the lambdas;
/// also the names of the globals in slot order, the native functions' first.
/// Every error found is reported, together, as `CompileMultiple`.
pub fn compile(
    program: &Program,
    _types: &TypeMap,
    symbols: &SymbolTable,
    native_names: &[String],
    source: &str,
) -> (r: Result<(Vec<BytecodeFn<Constant>>, Vec<String>), Error>)
    requires
        symbols.wf(),
        text_fits(source@),
    ensures
        match r {
            Ok((fns, order)) => {
                &&& fns@.len() >= 1 + fns_of(program.stmts@).len()
                &&& fn_names(fns@.subrange(1, 1 + fns_of(program.stmts@).len() as int)) == fns_of(program.stmts@)
                &&& fn_arities(fns@.subrange(1, 1 + fns_of(program.stmts@).len() as int)) == arities_of(program.stmts@)
                &&& fns@[0].name@ == "__main__"@
                &&& fns@[0].arity == 0
                &&& forall|i: int| 0 <= i < fns@.len() ==> lines_parallel(#[trigger] fns@[i])
                &&& names_of(order@) == globals_after_stmts(
                    with_names(Seq::empty(), names_of(native_names@)),
                    program.stmts@,
                )
            },
            Err(e) => match e {
                Error::CompileMultiple { errors } => errors@.len() > 0 && all_compile(errors@),
                _ => false,
            },
        },
        program_clean(program.stmts@) ==> r is Ok,
        all_expr_stmts(program.stmts@) ==> (r matches Ok((fns, _)) ==> main_compiled(program.stmts@, fns@[0])),
{
    let line_offsets = build_line_offsets(source);
    let mut globals: Vec<String> = Vec::new();
    let mut global_order: Vec<String> = Vec::new();
    let mut k: usize = 0;
    while k < native_names.len()
        invariant
            k <= native_names@.len(),
            names_of(globals@) == names_of(global_order@),
            names_of(globals@) == with_names(Seq::empty(), names_of(native_names@.subrange(0, k as int))),
        decreases native_names@.len() - k,
    {
        proof {
            assert(names_of(native_names@.subrange(0, k + 1)) =~= names_of(native_names@.subrange(0, k as int)).push(native_names@[k as int]@));
            lemma_with_names_step(Seq::empty(), names_of(native_names@.subrange(0, k as int)), native_names@[k as int]@);
        }
        add_global(&mut globals, &mut global_order, &native_names[k]);
        k = k + 1;
    }
    proof {
        assert(native_names@.subrange(0, native_names@.len() as int) =~= native_names@);
    }
    register_globals(&program.stmts, &mut globals, &mut global_order);
    let mut function_names: Vec<(String, usize)> = Vec::new();
    register_function_name_list(&program.stmts, &mut function_names);
    let lambda_base = if function_names.len() < usize::MAX { function_names.len() + 1 } else { 0 };
    let mut ctx = CompileContext {
        globals,
        function_names,
        errors: Vec::new(),
        line_offsets,
        lambda_counter: lambda_base,
        lambda_fns: Vec::new(),
        symbols,
    };
    let mut functions: Vec<BytecodeFn<Constant>> = Vec::new();
    let mut main = FunctionCompiler::new("__main__".to_string(), 0);
    let ghost (main0, ctx0) = (main, ctx);
    main.compile_body(&mut ctx, &program.stmts);
    proof {
        if all_expr_stmts(program.stmts@) {
            assert(body_compiled(program.stmts@, main0, main, ctx0, ctx));
        }
    }
    let ghost main_chunk = main.chunk;
    functions.push(main.finalize());
    proof {
        if all_expr_stmts(program.stmts@) {
            assert(main_compiled(program.stmts@, functions@[0]));
        }
    }
    let ghost f1 = functions@;
    compile_functions(&program.stmts, &mut functions, &mut ctx);
    proof {
        let k = fns_of(program.stmts@).len() as int;
        assert(fn_names(functions@).subrange(1, 1 + k) == fns_of(program.stmts@)) by {
            assert(fn_names(f1).len() == 1);
            assert(fn_names(functions@).subrange(1, 1 + k) =~= fns_of(program.stmts@));
        }
        assert(fn_arities(functions@).subrange(1, 1 + k) == arities_of(program.stmts@)) by {
            assert(fn_arities(f1).len() == 1);
            assert(fn_arities(functions@).len() == fn_names(functions@).len());
            assert(fn_arities(functions@).subrange(1, 1 + k) =~= arities_of(program.stmts@));
        }
    }
    let ghost before = functions@;
    let ghost lam = ctx.lambda_fns@;
    let mut lambdas = ctx.lambda_fns;
    ctx.lambda_fns = Vec::new();
    functions.append(&mut lambdas);
    proof {
        assert forall|i: int| 0 <= i < functions@.len() implies lines_parallel(#[trigger] functions@[i]) by {
            if i >= before.len() {
                assert(functions@[i] == lam[i - before.len()]);
                assert(lines_parallel(lam[i - before.len()]));
            } else {
                assert(functions@[i] == before[i]);
            }
        }
        let k = fns_of(program.stmts@).len() as int;
        assert(fn_names(before).len() == before.len());
        assert(fn_names(before).len() == 1 + k);
        assert(functions@ =~= before + lam);
        assert(fn_names(functions@.subrange(1, 1 + k)) =~= fn_names(before).subrange(1, 1 + k)) by {
            assert forall|i: int| 0 <= i < k implies #[trigger] functions@.subrange(1, 1 + k)[i] == before[1 + i] by {
                assert(functions@[1 + i] == before[1 + i]);
            }
        }
        assert(fn_arities(functions@.subrange(1, 1 + k)) =~= fn_arities(before).subrange(1, 1 + k)) by {
            assert forall|i: int| 0 <= i < k implies #[trigger] functions@.subrange(1, 1 + k)[i] == before[1 + i] by {
                assert(functions@[1 + i] == before[1 + i]);
            }
        }
    }
    if ctx.errors.len() == 0 {
        Ok((functions, global_order))
    } else {
        Err(Error::CompileMultiple { errors: ctx.errors })
    }
}


/// `n` in decimal, right-aligned in 4 characters.
pub open spec fn right4(n: nat) -> Seq<char> {
    let d = decimal(n);
    (if d.len() < 4 { repeat_char(' ', (4 - d.len()) as nat) } else { Seq::empty() }) + d
}

/// How many hexadecimal digits `v` has.
pub open spec fn hex_width(v: nat) -> nat
    decreases v,
{
    if v < 16 { 1 } else { 1 + hex_width(v / 16) }
}

/// `v` in lowercase hexadecimal, padded with zeros to at least 4 digits.
pub open spec fn hex4(v: nat) -> Seq<char> {
    hex_fixed(v, if hex_width(v) < 4 { 4 } else { hex_width(v) })
}

/// An integer in decimal, with a minus sign when negative.
pub open spec fn int_text(i: i64) -> Seq<char> {
    if i < 0 { "-"@ + decimal((-i) as nat) } else { decimal(i as nat) }
}

/// How a constant is shown in a disassembly.
pub open spec fn constant_text(c: Constant) -> Seq<char> {
    match c {
        Constant::Nil => "nil"@,
        Constant::Bool(b) => if b { "true"@ } else { "false"@ },
        Constant::Int(i) => int_text(i),
        Constant::Float(t) => t@,
        Constant::Str(t) => "\""@ + t@ + "\""@,
        Constant::Function(i) => "fn<"@ + decimal(i as nat) + ">"@,
    }
}

/// The name at `i` of a name table, or `?`.
pub open spec fn name_or_unknown(names: Seq<String>, i: int) -> Seq<char> {
    if 0 <= i < names.len() { names[i]@ } else { "?"@ }
}

/// The text of an instruction as decoded (its operands read as zero), which
/// ends at `next`.
pub open spec fn instruction_text(c: Chunk<Constant>, op: Opcode, next: nat) -> Seq<char> {
    match op {
        Opcode::LoadConst(i) => "LoadConst  "@ + right4(i as nat) + "  '"@ + (if (i as int) < c.constants@.len() {
            constant_text(c.constants@[i as int])
        } else {
            "?"@
        }) + "'"@,
        Opcode::LoadLocal(i) => "LoadLocal  "@ + right4(i as nat),
        Opcode::StoreLocal(i) => "StoreLocal "@ + right4(i as nat),
        Opcode::LoadGlobal(i) => "LoadGlobal "@ + right4(i as nat),
        Opcode::StoreGlobal(i) => "StoreGlobal"@ + right4(i as nat),
        Opcode::Call(i) => "Call       "@ + right4(i as nat),
        Opcode::Jump(v) => "Jump       "@ + right4(v as nat) + " -> "@ + hex4(((next % 65536) + v as nat) % 65536),
        Opcode::JumpIfFalse(v) => "JumpIfFalse"@ + right4(v as nat) + " -> "@ + hex4(((next % 65536) + v as nat) % 65536),
        Opcode::Loop(v) => "Loop       "@ + right4(v as nat) + " -> "@ + hex4(if v + 1 <= next { (next - (v + 1)) as nat } else { 0 }),
        Opcode::MakeStruct(n) => "MakeStruct "@ + right4(n as nat),
        Opcode::MakeArray(n) => "MakeArray  "@ + right4(n as nat),
        Opcode::MakeEnum(t, d) => "MakeEnum   tag="@ + right4(t as nat) + " data="@ + right4(d as nat),
        Opcode::CallMethod(m, a) => "CallMethod "@ + right4(m as nat) + " '"@ + name_or_unknown(c.method_names@, m as int)
            + "' args="@ + decimal(a as nat),
        Opcode::LoadField(i) => "LoadField  "@ + right4(i as nat) + " '"@ + name_or_unknown(c.field_names@, i as int) + "'"@,
        Opcode::StoreField(i) => "StoreField "@ + right4(i as nat) + " '"@ + name_or_unknown(c.field_names@, i as int) + "'"@,
        Opcode::NewClosure(f, u) => "NewClosure fn="@ + right4(f as nat) + " up="@ + decimal(u as nat),
        Opcode::Return => "Return"@,
        Opcode::Pop => "Pop"@,
        Opcode::Dup => "Dup"@,
        Opcode::And => "And"@,
        Opcode::Or => "Or"@,
        Opcode::Add => "Add"@,
        Opcode::Sub => "Sub"@,
        Opcode::Mul => "Mul"@,
        Opcode::Div => "Div"@,
        Opcode::Mod => "Mod"@,
        Opcode::Neg => "Neg"@,
        Opcode::Eq => "Eq"@,
        Opcode::Ne => "Ne"@,
        Opcode::Lt => "Lt"@,
        Opcode::Le => "Le"@,
        Opcode::Gt => "Gt"@,
        Opcode::Ge => "Ge"@,
        Opcode::Not => "Not"@,
        Opcode::LoadIndex => "LoadIndex"@,
        Opcode::StoreIndex => "StoreIndex"@,
        Opcode::Len => "Len"@,
        Opcode::BitAnd => "BitAnd"@,
        Opcode::BitOr => "BitOr"@,
        Opcode::BitXor => "BitXor"@,
        Opcode::Shl => "Shl"@,
        Opcode::Shr => "Shr"@,
        Opcode::BitNot => "BitNot"@,
        Opcode::Halt => "Halt"@,
    }
}

/// The source line recorded for byte `offset`, or 0.
pub open spec fn line_at(c: Chunk<Constant>, offset: int) -> nat {
    if 0 <= offset < c.lines@.len() { c.lines@[offset] as nat } else { 0 }
}

/// The disassembly lines of the instructions from `offset` on: each its
/// offset in hex, its source line, and its text; it stops at the end or at a
/// byte that encodes no instruction.
pub open spec fn disasm_from(c: Chunk<Constant>, offset: int) -> Seq<Seq<char>>
    decreases c.code@.len() - offset,
{
    match decode_spec(c.code@, offset) {
        Some((op, next)) => {
            let here = hex4(offset as nat) + "  "@ + right4(line_at(c, offset)) + "  "@ + instruction_text(c, op, next as nat);
            if offset < next <= c.code@.len() {
                seq![here] + disasm_from(c, next)
            } else {
                seq![here]
            }
        },
        None => Seq::empty(),
    }
}

/// Append `n` in decimal, right-aligned in 4 characters.
fn push_right4(out: &mut String, n: u64)
    ensures
        final(out)@ == old(out)@ + right4(n as nat),
{
    let mut digits = String::new();
    push_decimal(&mut digits, n);
    let len = digits.as_str().unicode_len();
    if len < 4 {
        push_spaces(out, 4 - len);
    } else {
        proof {
            assert(repeat_char(' ', 0) =~= Seq::<char>::empty());
        }
        push_spaces(out, 0);
    }
    push_str_chars(out, digits.as_str());
    proof {
        if len >= 4 {
            assert(repeat_char(' ', 0) =~= Seq::<char>::empty());
        }
    }
}

/// Append `v` in hexadecimal, at least 4 digits.
fn push_hex4(out: &mut String, v: u64)
    ensures
        final(out)@ == old(out)@ + hex4(v as nat),
{
    proof {
        reveal_with_fuel(pow16, 17);
        assert(pow16(16) == 0x1_0000_0000_0000_0000);
        assert(pow16(0) == 1);
    }
    let mut w: usize = 1;
    let mut cur: u64 = v;
    while cur >= 16
        invariant
            1 <= w <= 16,
            hex_width(v as nat) == w - 1 + hex_width(cur as nat),
            (cur as int) * pow16((w - 1) as nat) <= v,
            pow16(16) == 0x1_0000_0000_0000_0000,
        decreases cur,
    {
        proof {
            lemma_pow16_step((w - 1) as nat, cur as nat, v as nat);
            if w == 16 {
                assert(pow16(16) == 16 * pow16(15));
                assert(16 * pow16(15) <= (cur as int) * pow16(15)) by (nonlinear_arith)
                    requires cur >= 16, pow16(15) >= 1;
            }
        }
        cur = cur / 16;
        w = w + 1;
    }
    let width = if w < 4 { 4 } else { w };
    push_hex_fixed(out, v, width);
}

pub open spec fn pow16(n: nat) -> int
    decreases n,
{
    if n == 0 { 1 } else { 16 * pow16((n - 1) as nat) }
}

proof fn lemma_pow16_step(k: nat, cur: nat, v: nat)
    requires
        cur >= 16,
        cur * pow16(k) <= v,
    ensures
        (cur / 16) * pow16(k + 1) <= v,
        pow16(k) >= 1,
        pow16(15) >= 1,
{
    lemma_pow16_pos(k);
    lemma_pow16_pos(15);
    assert(pow16(k + 1) == 16 * pow16(k));
    assert((cur / 16) * (16 * pow16(k)) <= cur * pow16(k)) by (nonlinear_arith)
        requires cur >= 16, pow16(k) >= 1;
}

proof fn lemma_pow16_pos(k: nat)
    ensures
        pow16(k) >= 1,
    decreases k,
{
    if k > 0 {
        lemma_pow16_pos((k - 1) as nat);
    }
}


/// Append how a constant is shown.
fn push_constant(out: &mut String, c: &Constant)
    ensures
        final(out)@ == old(out)@ + constant_text(*c),
{
    match c {
        Constant::Nil => push_str_chars(out, "nil"),
        Constant::Bool(b) => if *b { push_str_chars(out, "true") } else { push_str_chars(out, "false") },
        Constant::Int(i) => {
            if *i < 0 {
                push_str_chars(out, "-");
                let mag: u64 = ((-(*i + 1)) as u64) + 1;
                push_decimal(out, mag);
                proof {
                    assert(old(out)@ + "-"@ + decimal(mag as nat) =~= old(out)@ + ("-"@ + decimal(mag as nat)));
                }
            } else {
                push_decimal(out, *i as u64);
            }
        },
        Constant::Float(t) => push_str_chars(out, t.as_str()),
        Constant::Str(t) => {
            push_str_chars(out, "\"");
            push_str_chars(out, t.as_str());
            push_str_chars(out, "\"");
            proof {
                assert(old(out)@ + "\""@ + t@ + "\""@ =~= old(out)@ + ("\""@ + t@ + "\""@));
            }
        },
        Constant::Function(i) => {
            push_str_chars(out, "fn<");
            push_decimal(out, *i as u64);
            push_str_chars(out, ">");
            proof {
                assert(old(out)@ + "fn<"@ + decimal(*i as nat) + ">"@ =~= old(out)@ + ("fn<"@ + decimal(*i as nat) + ">"@));
            }
        },
    }
}

/// Append the name at `i`, or `?`.
fn push_name_or_unknown(out: &mut String, names: &Vec<String>, i: u16)
    ensures
        final(out)@ == old(out)@ + name_or_unknown(names@, i as int),
{
    if (i as usize) < names.len() {
        push_str_chars(out, names[i as usize].as_str());
    } else {
        push_str_chars(out, "?");
    }
}

/// The text of a decoded instruction (see `instruction_text`).
fn instruction_string(chunk: &Chunk<Constant>, op: Opcode, next: usize) -> (t: String)
    requires
        next >= 1,
    ensures
        t@ == instruction_text(*chunk, op, next as nat),
{
    let mut t = String::new();
    match op {
        Opcode::LoadConst(i) => {
            push_str_chars(&mut t, "LoadConst  ");
            push_right4(&mut t, i as u64);
            push_str_chars(&mut t, "  '");
            if (i as usize) < chunk.constants.len() {
                push_constant(&mut t, &chunk.constants[i as usize]);
            } else {
                push_str_chars(&mut t, "?");
            }
            push_str_chars(&mut t, "'");
        },
        Opcode::LoadLocal(i) => { push_str_chars(&mut t, "LoadLocal  "); push_right4(&mut t, i as u64); },
        Opcode::StoreLocal(i) => { push_str_chars(&mut t, "StoreLocal "); push_right4(&mut t, i as u64); },
        Opcode::LoadGlobal(i) => { push_str_chars(&mut t, "LoadGlobal "); push_right4(&mut t, i as u64); },
        Opcode::StoreGlobal(i) => { push_str_chars(&mut t, "StoreGlobal"); push_right4(&mut t, i as u64); },
        Opcode::Call(i) => { push_str_chars(&mut t, "Call       "); push_right4(&mut t, i as u64); },
        Opcode::Jump(v) => {
            push_str_chars(&mut t, "Jump       ");
            push_right4(&mut t, v as u64);
            push_str_chars(&mut t, " -> ");
            let base = (next % 65536) as u64;
            let target = (base + v as u64) % 65536;
            push_hex4(&mut t, target);
        },
        Opcode::JumpIfFalse(v) => {
            push_str_chars(&mut t, "JumpIfFalse");
            push_right4(&mut t, v as u64);
            push_str_chars(&mut t, " -> ");
            let base = (next % 65536) as u64;
            let target = (base + v as u64) % 65536;
            push_hex4(&mut t, target);
        },
        Opcode::Loop(v) => {
            push_str_chars(&mut t, "Loop       ");
            push_right4(&mut t, v as u64);
            push_str_chars(&mut t, " -> ");
            let back = v as usize + 1;
            let target = if back <= next { (next - back) as u64 } else { 0 };
            push_hex4(&mut t, target);
        },
        Opcode::MakeStruct(n) => { push_str_chars(&mut t, "MakeStruct "); push_right4(&mut t, n as u64); },
        Opcode::MakeArray(n) => { push_str_chars(&mut t, "MakeArray  "); push_right4(&mut t, n as u64); },
        Opcode::MakeEnum(tag, d) => {
            push_str_chars(&mut t, "MakeEnum   tag=");
            push_right4(&mut t, tag as u64);
            push_str_chars(&mut t, " data=");
            push_right4(&mut t, d as u64);
        },
        Opcode::CallMethod(m, a) => {
            push_str_chars(&mut t, "CallMethod ");
            push_right4(&mut t, m as u64);
            push_str_chars(&mut t, " '");
            push_name_or_unknown(&mut t, &chunk.method_names, m);
            push_str_chars(&mut t, "' args=");
            push_decimal(&mut t, a as u64);
        },
        Opcode::LoadField(i) => {
            push_str_chars(&mut t, "LoadField  ");
            push_right4(&mut t, i as u64);
            push_str_chars(&mut t, " '");
            push_name_or_unknown(&mut t, &chunk.field_names, i);
            push_str_chars(&mut t, "'");
        },
        Opcode::StoreField(i) => {
            push_str_chars(&mut t, "StoreField ");
            push_right4(&mut t, i as u64);
            push_str_chars(&mut t, " '");
            push_name_or_unknown(&mut t, &chunk.field_names, i);
            push_str_chars(&mut t, "'");
        },
        Opcode::NewClosure(f, u) => {
            push_str_chars(&mut t, "NewClosure fn=");
            push_right4(&mut t, f as u64);
            push_str_chars(&mut t, " up=");
            push_decimal(&mut t, u as u64);
        },
        Opcode::Return => push_str_chars(&mut t, "Return"),
        Opcode::Pop => push_str_chars(&mut t, "Pop"),
        Opcode::Dup => push_str_chars(&mut t, "Dup"),
        Opcode::And => push_str_chars(&mut t, "And"),
        Opcode::Or => push_str_chars(&mut t, "Or"),
        Opcode::Add => push_str_chars(&mut t, "Add"),
        Opcode::Sub => push_str_chars(&mut t, "Sub"),
        Opcode::Mul => push_str_chars(&mut t, "Mul"),
        Opcode::Div => push_str_chars(&mut t, "Div"),
        Opcode::Mod => push_str_chars(&mut t, "Mod"),
        Opcode::Neg => push_str_chars(&mut t, "Neg"),
        Opcode::Eq => push_str_chars(&mut t, "Eq"),
        Opcode::Ne => push_str_chars(&mut t, "Ne"),
        Opcode::Lt => push_str_chars(&mut t, "Lt"),
        Opcode::Le => push_str_chars(&mut t, "Le"),
        Opcode::Gt => push_str_chars(&mut t, "Gt"),
        Opcode::Ge => push_str_chars(&mut t, "Ge"),
        Opcode::Not => push_str_chars(&mut t, "Not"),
        Opcode::LoadIndex => push_str_chars(&mut t, "LoadIndex"),
        Opcode::StoreIndex => push_str_chars(&mut t, "StoreIndex"),
        Opcode::Len => push_str_chars(&mut t, "Len"),
        Opcode::BitAnd => push_str_chars(&mut t, "BitAnd"),
        Opcode::BitOr => push_str_chars(&mut t, "BitOr"),
        Opcode::BitXor => push_str_chars(&mut t, "BitXor"),
        Opcode::Shl => push_str_chars(&mut t, "Shl"),
        Opcode::Shr => push_str_chars(&mut t, "Shr"),
        Opcode::BitNot => push_str_chars(&mut t, "BitNot"),
        Opcode::Halt => push_str_chars(&mut t, "Halt"),
    }
    proof {
        assert(t@ =~= instruction_text(*chunk, op, next as nat));
    }
    t
}

/// The disassembly of a chunk: the line `== name ==`, then a line per
/// instruction with its offset in hex, its source line and its text (the
/// instructions are decoded as `decode_at` gives them, operands read as zero).
pub fn disassemble(chunk: &Chunk<Constant>, name: &str) -> (lines: Vec<String>)
    requires
        chunk.code@.len() + 5 <= usize::MAX,
    ensures
        lines@.len() == 1 + disasm_from(*chunk, 0).len(),
        lines@[0]@ == "== "@ + name@ + " =="@,
        forall|i: int| 0 <= i < disasm_from(*chunk, 0).len() ==> #[trigger] lines@[i + 1]@ == disasm_from(*chunk, 0)[i],
{
    let mut lines: Vec<String> = Vec::new();
    let mut header = String::new();
    push_str_chars(&mut header, "== ");
    push_str_chars(&mut header, name);
    push_str_chars(&mut header, " ==");
    lines.push(header);
    let ghost all = disasm_from(*chunk, 0);
    let mut offset: usize = 0;
    let ghost mut done: Seq<Seq<char>> = Seq::empty();
    while offset < chunk.code.len()
        invariant
            chunk.code@.len() + 5 <= usize::MAX,
            offset <= chunk.code@.len() + 4,
            lines@.len() == 1 + done.len(),
            lines@[0]@ == "== "@ + name@ + " =="@,
            forall|i: int| 0 <= i < done.len() ==> #[trigger] lines@[i + 1]@ == done[i],
            all == done + disasm_from(*chunk, offset as int),
        ensures
            lines@.len() == 1 + done.len(),
            lines@[0]@ == "== "@ + name@ + " =="@,
            forall|i: int| 0 <= i < done.len() ==> #[trigger] lines@[i + 1]@ == done[i],
            all == done,
        decreases chunk.code@.len() + 5 - offset,
    {
        let line = chunk.get_line(offset);
        let (op, next) = match chunk.decode_at(offset) {
            Some(d) => d,
            None => {
                proof {
                    assert(disasm_from(*chunk, offset as int) =~= Seq::<Seq<char>>::empty());
                    assert(all =~= done);
                }
                break;
            },
        };
        proof {
            assert(Opcode::of_byte(chunk.code@[offset as int]).unwrap().operands().len() <= 2);
        }
        let mut text = String::new();
        push_hex4(&mut text, offset as u64);
        push_str_chars(&mut text, "  ");
        push_right4(&mut text, line as u64);
        push_str_chars(&mut text, "  ");
        let body = instruction_string(chunk, op, next);
        push_str_chars(&mut text, body.as_str());
        proof {
            assert(line_at(*chunk, offset as int) == line as nat);
            let here = hex4(offset as nat) + "  "@ + right4(line_at(*chunk, offset as int)) + "  "@
                + instruction_text(*chunk, op, next as nat);
            assert(text@ =~= here);
            if next <= chunk.code@.len() {
                assert(disasm_from(*chunk, offset as int) == seq![here] + disasm_from(*chunk, next as int));
                assert(done + disasm_from(*chunk, offset as int) =~= done.push(here) + disasm_from(*chunk, next as int));
            } else {
                assert(disasm_from(*chunk, offset as int) == seq![here]);
                assert(disasm_from(*chunk, next as int) =~= Seq::<Seq<char>>::empty());
                assert(done + disasm_from(*chunk, offset as int) =~= done.push(here) + disasm_from(*chunk, next as int));
            }
            done = done.push(here);
        }
        lines.push(text);
        offset = next;
    }
    lines
}

} // verus!
