//! The assembler: from source text to the binary form of a program, in two
//! passes.
//!
//! The first pass reads the source line by line, records the position of
//! each label and queues the instructions; a branch to a label that is bound
//! already is resolved at once. The second pass resolves the branches that
//! are left, encodes the queue, and puts a `Halt` behind it. The first error
//! ends the work, and nothing is produced.

use crate::encoding::{le_bytes, pack, pack_word, write_word};
use crate::isa::{Opcode, Register};
use crate::text::{
    chars_of, holds, lines_of, literal_of, lowercase, lowercase_of, parse_literal, part, quote,
    quoted, same_text, spells, split_lines, split_tokens, string_of, strip, texts, tokens_of,
    without,
};
use vstd::prelude::*;
use vstd::string::StringExecFns;

verus! {

/// The most words that a binary may have, the `Halt` at its end included:
/// the program counter has to be able to stand behind the last of them.
pub const MOST_WORDS: u32 = 0xffff_ffff;

/// Why a source text cannot be assembled.
#[derive(Debug, PartialEq, Eq)]
pub enum CompileError {
    /// The line, in lower case and without its commas, is no label and no
    /// instruction.
    InvalidLine(String),
    /// The operand of an increment names no register.
    NotARegister(String),
    /// A branch names a label that the source does not declare.
    LabelNotFound(String),
    /// The binary would have more than `MOST_WORDS` words.
    ProgramTooLarge,
}

/// A `CompileError` as a value.
pub enum Failure {
    InvalidLine(Seq<char>),
    NotARegister(Seq<char>),
    LabelNotFound(Seq<char>),
    ProgramTooLarge,
}

impl View for CompileError {
    type V = Failure;

    open spec fn view(&self) -> Failure {
        match *self {
            CompileError::InvalidLine(line) => Failure::InvalidLine(line@),
            CompileError::NotARegister(token) => Failure::NotARegister(token@),
            CompileError::LabelNotFound(label) => Failure::LabelNotFound(label@),
            CompileError::ProgramTooLarge => Failure::ProgramTooLarge,
        }
    }
}

/// The second operand of a queued instruction.
#[derive(Debug, PartialEq, Eq)]
pub enum Operand {
    /// A register.
    Register(Register),
    /// An immediate value.
    Value(u32),
    /// The position of the label that a branch names.
    Position(u32),
    /// The name of a label that was not bound when the branch was read.
    Label(Vec<char>),
}

/// An `Operand` as a value.
pub enum OperandView {
    Register(Register),
    Value(u32),
    Position(u32),
    Label(Seq<char>),
}

impl View for Operand {
    type V = OperandView;

    open spec fn view(&self) -> OperandView {
        match *self {
            Operand::Register(register) => OperandView::Register(register),
            Operand::Value(value) => OperandView::Value(value),
            Operand::Position(position) => OperandView::Position(position),
            Operand::Label(name) => OperandView::Label(name@),
        }
    }
}

/// A queued instruction.
#[derive(Debug, PartialEq, Eq)]
pub struct Entry {
    pub op: Opcode,
    pub first: Register,
    pub operand: Operand,
}

/// An `Entry` as a value.
pub struct EntryView {
    pub op: Opcode,
    pub first: Register,
    pub operand: OperandView,
}

impl View for Entry {
    type V = EntryView;

    open spec fn view(&self) -> EntryView {
        EntryView { op: self.op, first: self.first, operand: self.operand@ }
    }
}

/// What a line of source says: that a label stands here, or an instruction.
#[derive(Debug, PartialEq, Eq)]
pub enum Statement {
    Label(Vec<char>),
    Instruction(Entry),
}

/// A `Statement` as a value.
pub enum StatementView {
    Label(Seq<char>),
    Instruction(EntryView),
}

impl View for Statement {
    type V = StatementView;

    open spec fn view(&self) -> StatementView {
        match *self {
            Statement::Label(name) => StatementView::Label(name@),
            Statement::Instruction(entry) => StatementView::Instruction(entry@),
        }
    }
}

/// A label and the position it was declared at.
#[derive(Debug, PartialEq, Eq)]
pub struct Binding {
    pub name: Vec<char>,
    pub position: u32,
}

/// The operation that a mnemonic names.
pub open spec fn mnemonic(token: Seq<char>) -> Option<Opcode> {
    if token == "nop"@ {
        Some(Opcode::NoOp)
    } else if token == "jmp"@ {
        Some(Opcode::Jump)
    } else if token == "hlt"@ {
        Some(Opcode::Halt)
    } else if token == "inc"@ {
        Some(Opcode::Increment)
    } else if token == "shr"@ {
        Some(Opcode::ShiftRight)
    } else if token == "shl"@ {
        Some(Opcode::ShiftLeft)
    } else if token == "mov"@ {
        Some(Opcode::Move)
    } else if token == "add"@ {
        Some(Opcode::Add)
    } else if token == "sub"@ {
        Some(Opcode::Subtract)
    } else if token == "mul"@ {
        Some(Opcode::Multiply)
    } else if token == "div"@ {
        Some(Opcode::Divide)
    } else if token == "je"@ {
        Some(Opcode::IfEqual)
    } else if token == "jn"@ {
        Some(Opcode::IfNotEqual)
    } else if token == "mmov"@ {
        Some(Opcode::MemoryMove)
    } else if token == "mset"@ {
        Some(Opcode::MemorySet)
    } else if token == "xor"@ {
        Some(Opcode::XOr)
    } else if token == "in"@ {
        Some(Opcode::In)
    } else if token == "out"@ {
        Some(Opcode::Out)
    } else if token == "push"@ {
        Some(Opcode::Push)
    } else if token == "pop"@ {
        Some(Opcode::Pop)
    } else if token == "jz"@ {
        Some(Opcode::IfZero)
    } else if token == "jg"@ {
        Some(Opcode::IfGreater)
    } else if token == "jl"@ {
        Some(Opcode::IfLess)
    } else if token == "cmp"@ {
        Some(Opcode::Compare)
    } else {
        None
    }
}

/// The register that a name stands for.
pub open spec fn register_named(token: Seq<char>) -> Option<Register> {
    if token == "a"@ {
        Some(Register::A)
    } else if token == "b"@ {
        Some(Register::B)
    } else if token == "c"@ {
        Some(Register::C)
    } else if token == "d"@ {
        Some(Register::D)
    } else if token == "e"@ {
        Some(Register::E)
    } else if token == "x"@ {
        Some(Register::X)
    } else if token == "y"@ {
        Some(Register::Y)
    } else if token == "z"@ {
        Some(Register::Z)
    } else {
        None
    }
}

/// What the tokens of a line say. `line` is the text that an `InvalidLine`
/// carries.
///
/// No token at all is no statement. A first token that ends in a colon
/// declares a label, named by the token without its colons. Else the first
/// token is a mnemonic. A branch takes
/// one operand, the name of a label. An increment takes one operand, a
/// register. Every other operation takes two: a register, and then a
/// register or a literal.
pub open spec fn parse_tokens(tokens: Seq<Seq<char>>, line: Seq<char>) -> Result<
    StatementView,
    Failure,
> {
    let head = tokens[0];
    if tokens.len() == 0 {
        Err(Failure::InvalidLine(line))
    } else if head.len() > 0 && head.last() == ':' {
        Ok(StatementView::Label(without(head, ':')))
    } else {
        match mnemonic(head) {
            None => Err(Failure::InvalidLine(line)),
            Some(op) => if op.is_branch() {
                if tokens.len() == 2 {
                    Ok(
                        StatementView::Instruction(
                            EntryView {
                                op,
                                first: Register::Null,
                                operand: OperandView::Label(tokens[1]),
                            },
                        ),
                    )
                } else {
                    Err(Failure::InvalidLine(line))
                }
            } else if op == Opcode::Increment {
                if tokens.len() != 2 {
                    Err(Failure::InvalidLine(line))
                } else {
                    match register_named(tokens[1]) {
                        None => Err(Failure::NotARegister(tokens[1])),
                        Some(first) => Ok(
                            StatementView::Instruction(
                                EntryView { op, first, operand: OperandView::Value(0) },
                            ),
                        ),
                    }
                }
            } else if tokens.len() != 3 {
                Err(Failure::InvalidLine(line))
            } else {
                match (register_named(tokens[1]), register_named(tokens[2]), literal_of(tokens[2])) {
                    (Some(first), Some(second), _) => Ok(
                        StatementView::Instruction(
                            EntryView { op, first, operand: OperandView::Register(second) },
                        ),
                    ),
                    (Some(first), None, Some(value)) => Ok(
                        StatementView::Instruction(
                            EntryView { op, first, operand: OperandView::Value(value) },
                        ),
                    ),
                    _ => Err(Failure::InvalidLine(line)),
                }
            },
        }
    }
}

/// What a line of source says, if anything. The line is taken in lower
/// case. A line that holds a semicolon is a comment, whatever else it holds.
/// Commas count for nothing. A line without a token says nothing.
pub open spec fn statement_of(line: Seq<char>) -> Option<Result<StatementView, Failure>> {
    let lowered = lowercase_of(line);
    let plain = without(lowered, ',');
    let tokens = tokens_of(plain);
    if lowered.contains(';') || tokens.len() == 0 {
        None
    } else {
        Some(parse_tokens(tokens, plain))
    }
}

impl EntryView {
    /// Whether the instruction has a form that reading a line gives: a
    /// branch has no first operand and a label or its position as second; any
    /// other operation has a register as first operand, and a register or a
    /// value as second.
    pub open spec fn formed(self) -> bool {
        match self.operand {
            OperandView::Register(register) => register != Register::Null && self.first
                != Register::Null && !self.op.is_branch(),
            OperandView::Value(_) => self.first != Register::Null && !self.op.is_branch(),
            OperandView::Position(_) => self.first == Register::Null && self.op.is_branch(),
            OperandView::Label(_) => self.first == Register::Null && self.op.is_branch(),
        }
    }
}

impl StatementView {
    /// Whether the statement has the form that reading a line gives: an
    /// instruction is formed, and names the label where it branches, not a
    /// position.
    pub open spec fn source_form(self) -> bool {
        match self {
            StatementView::Label(_) => true,
            StatementView::Instruction(entry) => entry.formed() && !(entry.operand is Position),
        }
    }
}

/// What the tokens of a line say has the form that `source_form` describes.
pub proof fn lemma_parse_tokens_form(tokens: Seq<Seq<char>>, line: Seq<char>)
    ensures
        parse_tokens(tokens, line) matches Ok(statement) ==> statement.source_form(),
{
}

/// Whether what was parsed is what was to be parsed.
pub open spec fn parsed_as(
    parsed: Result<Statement, CompileError>,
    wanted: Result<StatementView, Failure>,
) -> bool {
    match wanted {
        Ok(statement) => parsed is Ok && parsed.unwrap()@ == statement,
        Err(failure) => parsed is Err && parsed.unwrap_err()@ == failure,
    }
}

/// Looks a mnemonic up.
pub fn opcode_named(token: &Vec<char>) -> (found: Option<Opcode>)
    ensures
        found == mnemonic(token@),
{
    if spells(token, "nop") {
        Some(Opcode::NoOp)
    } else if spells(token, "jmp") {
        Some(Opcode::Jump)
    } else if spells(token, "hlt") {
        Some(Opcode::Halt)
    } else if spells(token, "inc") {
        Some(Opcode::Increment)
    } else if spells(token, "shr") {
        Some(Opcode::ShiftRight)
    } else if spells(token, "shl") {
        Some(Opcode::ShiftLeft)
    } else if spells(token, "mov") {
        Some(Opcode::Move)
    } else if spells(token, "add") {
        Some(Opcode::Add)
    } else if spells(token, "sub") {
        Some(Opcode::Subtract)
    } else if spells(token, "mul") {
        Some(Opcode::Multiply)
    } else if spells(token, "div") {
        Some(Opcode::Divide)
    } else if spells(token, "je") {
        Some(Opcode::IfEqual)
    } else if spells(token, "jn") {
        Some(Opcode::IfNotEqual)
    } else if spells(token, "mmov") {
        Some(Opcode::MemoryMove)
    } else if spells(token, "mset") {
        Some(Opcode::MemorySet)
    } else if spells(token, "xor") {
        Some(Opcode::XOr)
    } else if spells(token, "in") {
        Some(Opcode::In)
    } else if spells(token, "out") {
        Some(Opcode::Out)
    } else if spells(token, "push") {
        Some(Opcode::Push)
    } else if spells(token, "pop") {
        Some(Opcode::Pop)
    } else if spells(token, "jz") {
        Some(Opcode::IfZero)
    } else if spells(token, "jg") {
        Some(Opcode::IfGreater)
    } else if spells(token, "jl") {
        Some(Opcode::IfLess)
    } else if spells(token, "cmp") {
        Some(Opcode::Compare)
    } else {
        None
    }
}

/// Looks the name of a register up.
pub fn register_of(token: &Vec<char>) -> (found: Option<Register>)
    ensures
        found == register_named(token@),
        found matches Some(register) ==> register != Register::Null,
{
    if spells(token, "a") {
        Some(Register::A)
    } else if spells(token, "b") {
        Some(Register::B)
    } else if spells(token, "c") {
        Some(Register::C)
    } else if spells(token, "d") {
        Some(Register::D)
    } else if spells(token, "e") {
        Some(Register::E)
    } else if spells(token, "x") {
        Some(Register::X)
    } else if spells(token, "y") {
        Some(Register::Y)
    } else if spells(token, "z") {
        Some(Register::Z)
    } else {
        None
    }
}

/// A copy of `text`.
fn copy_of(text: &Vec<char>) -> (copy: Vec<char>)
    ensures
        copy@ == text@,
{
    let copy = part(text, 0, text.len());
    assert(text@.subrange(0, text.len() as int) =~= text@);
    copy
}

/// Reads the tokens of a line.
pub fn parse_statement(tokens: &Vec<Vec<char>>, line: &Vec<char>) -> (parsed: Result<
    Statement,
    CompileError,
>)
    ensures
        parsed_as(parsed, parse_tokens(texts(tokens@), line@)),
        parsed matches Ok(statement) ==> statement@.source_form(),
{
    if tokens.len() == 0 {
        return Err(CompileError::InvalidLine(string_of(line)));
    }
    let head = &tokens[0];
    if head.len() > 0 && head[head.len() - 1] == ':' {
        return Ok(Statement::Label(strip(head, ':')));
    }
    let op = match opcode_named(head) {
        None => {
            return Err(CompileError::InvalidLine(string_of(line)));
        },
        Some(op) => op,
    };
    if op.transfers_control() {
        if tokens.len() == 2 {
            Ok(
                Statement::Instruction(
                    Entry { op, first: Register::Null, operand: Operand::Label(copy_of(&tokens[1])) },
                ),
            )
        } else {
            Err(CompileError::InvalidLine(string_of(line)))
        }
    } else if op == Opcode::Increment {
        if tokens.len() != 2 {
            Err(CompileError::InvalidLine(string_of(line)))
        } else {
            match register_of(&tokens[1]) {
                None => Err(CompileError::NotARegister(string_of(&tokens[1]))),
                Some(first) => Ok(
                    Statement::Instruction(Entry { op, first, operand: Operand::Value(0) }),
                ),
            }
        }
    } else if tokens.len() != 3 {
        Err(CompileError::InvalidLine(string_of(line)))
    } else {
        let first = match register_of(&tokens[1]) {
            None => {
                return Err(CompileError::InvalidLine(string_of(line)));
            },
            Some(first) => first,
        };
        match register_of(&tokens[2]) {
            Some(second) => Ok(
                Statement::Instruction(Entry { op, first, operand: Operand::Register(second) }),
            ),
            None => match parse_literal(&tokens[2]) {
                Some(value) => Ok(
                    Statement::Instruction(Entry { op, first, operand: Operand::Value(value) }),
                ),
                None => Err(CompileError::InvalidLine(string_of(line))),
            },
        }
    }
}

/// What the first pass has gathered: the word counter, the labels with their
/// positions, and the queue of instructions.
pub struct Pass {
    pub counter: u32,
    pub labels: Map<Seq<char>, u32>,
    pub entries: Seq<EntryView>,
}

impl Pass {
    /// The pass before the first line.
    pub open spec fn start() -> Pass {
        Pass { counter: 0, labels: Map::empty(), entries: Seq::empty() }
    }

    /// What holds of every pass: the binary will not have more than
    /// `MOST_WORDS` words, the counter has not gone further than the queue
    /// has words, no position lies behind the counter, and every instruction
    /// is formed.
    pub open spec fn wf(self) -> bool {
        &&& queued_words(self.entries) + 2 <= MOST_WORDS
        &&& self.counter <= queued_words(self.entries)
        &&& forall|name: Seq<char>| #[trigger]
            self.labels.contains_key(name) ==> self.labels[name] <= self.counter
        &&& forall|i: int|
            0 <= i < self.entries.len() ==> (#[trigger] self.entries[i]).formed() && (
            self.entries[i].operand matches OperandView::Position(position) ==> position
                <= self.counter)
    }
}

/// The number of words that an instruction has in the binary: one where its
/// operand is a register, else two.
pub open spec fn size(entry: EntryView) -> int {
    match entry.operand {
        OperandView::Register(_) => 1,
        _ => 2,
    }
}

/// The number of words that a queue of instructions has in the binary.
pub open spec fn queued_words(entries: Seq<EntryView>) -> int
    decreases entries.len(),
{
    if entries.len() == 0 {
        0
    } else {
        queued_words(entries.drop_last()) + size(entries.last())
    }
}

/// By how many words an instruction moves the word counter: by one where
/// its operand is a register, and for an increment; else by two.
pub open spec fn advance(entry: EntryView) -> int {
    match entry.operand {
        OperandView::Register(_) => 1,
        OperandView::Value(_) => if entry.op == Opcode::Increment {
            1
        } else {
            2
        },
        OperandView::Position(_) => 2,
        OperandView::Label(_) => 2,
    }
}

/// The instruction as it is queued: where it names a label that is bound,
/// the position of the label takes the place of the name.
pub open spec fn resolved(entry: EntryView, labels: Map<Seq<char>, u32>) -> EntryView {
    match entry.operand {
        OperandView::Label(name) => if labels.contains_key(name) {
            EntryView { operand: OperandView::Position(labels[name]), ..entry }
        } else {
            entry
        },
        _ => entry,
    }
}

/// The pass after one more statement. A label is bound to the counter as it
/// stands, and takes no room. An instruction is queued and moves the
/// counter, unless the binary would then have more than `MOST_WORDS` words.
pub open spec fn apply(pass: Pass, statement: StatementView) -> Result<Pass, Failure> {
    match statement {
        StatementView::Label(name) => Ok(
            Pass { labels: pass.labels.insert(name, pass.counter), ..pass },
        ),
        StatementView::Instruction(entry) => if queued_words(pass.entries) + size(entry) + 2
            > MOST_WORDS {
            Err(Failure::ProgramTooLarge)
        } else {
            Ok(
                Pass {
                    counter: (pass.counter + advance(entry)) as u32,
                    entries: pass.entries.push(resolved(entry, pass.labels)),
                    ..pass
                },
            )
        },
    }
}

/// The pass after one more line.
pub open spec fn read_line(pass: Pass, line: Seq<char>) -> Result<Pass, Failure> {
    match statement_of(line) {
        None => Ok(pass),
        Some(Err(failure)) => Err(failure),
        Some(Ok(statement)) => apply(pass, statement),
    }
}

/// The first pass over `lines`: what has been gathered at the end, or the
/// first failure.
pub open spec fn first_pass(lines: Seq<Seq<char>>) -> Result<Pass, Failure>
    decreases lines.len(),
{
    if lines.len() == 0 {
        Ok(Pass::start())
    } else {
        match first_pass(lines.drop_last()) {
            Err(failure) => Err(failure),
            Ok(pass) => read_line(pass, lines.last()),
        }
    }
}

/// The words of one instruction: the instruction word, and behind it the
/// immediate word unless the operand is a register. The immediate word of a
/// branch is the position of its label plus one.
pub open spec fn entry_words(entry: EntryView, labels: Map<Seq<char>, u32>) -> Result<
    Seq<u32>,
    Failure,
> {
    let plain = pack(entry.op.code(), entry.first.code(), 0);
    match entry.operand {
        OperandView::Register(register) => Ok(
            seq![pack(entry.op.code(), entry.first.code(), register.code())],
        ),
        OperandView::Value(value) => Ok(seq![plain, value]),
        OperandView::Position(position) => Ok(seq![plain, (position + 1) as u32]),
        OperandView::Label(name) => if labels.contains_key(name) {
            Ok(seq![plain, (labels[name] + 1) as u32])
        } else {
            Err(Failure::LabelNotFound(name))
        },
    }
}

/// The words of the queue, or the first failure.
pub open spec fn program_words(entries: Seq<EntryView>, labels: Map<Seq<char>, u32>) -> Result<
    Seq<u32>,
    Failure,
>
    decreases entries.len(),
{
    if entries.len() == 0 {
        Ok(Seq::empty())
    } else {
        match program_words(entries.drop_last(), labels) {
            Err(failure) => Err(failure),
            Ok(words) => match entry_words(entries.last(), labels) {
                Err(failure) => Err(failure),
                Ok(more) => Ok(words + more),
            },
        }
    }
}

/// The two words of the `Halt` that ends every program.
pub open spec fn halt_words() -> Seq<u32> {
    seq![pack(Opcode::Halt.code(), 0, 0), 0u32]
}

/// The bytes of a sequence of words.
pub open spec fn bytes_of(words: Seq<u32>) -> Seq<u8>
    decreases words.len(),
{
    if words.len() == 0 {
        Seq::empty()
    } else {
        bytes_of(words.drop_last()) + le_bytes(words.last())
    }
}

/// The binary form of what a pass has gathered.
pub open spec fn binary_of(pass: Pass) -> Result<Seq<u8>, Failure> {
    match program_words(pass.entries, pass.labels) {
        Err(failure) => Err(failure),
        Ok(words) => Ok(bytes_of(words + halt_words())),
    }
}

/// The binary form of the program that `source` is, or the first failure.
pub open spec fn assemble_spec(source: Seq<char>) -> Result<Seq<u8>, Failure> {
    match first_pass(lines_of(source)) {
        Err(failure) => Err(failure),
        Ok(pass) => binary_of(pass),
    }
}

/// The labels that a list of bindings binds. A later binding of a name
/// takes the place of an earlier one.
pub open spec fn bound(bindings: Seq<Binding>) -> Map<Seq<char>, u32>
    decreases bindings.len(),
{
    if bindings.len() == 0 {
        Map::empty()
    } else {
        bound(bindings.drop_last()).insert(bindings.last().name@, bindings.last().position)
    }
}

/// The values of a queue of entries.
pub open spec fn entry_views(entries: Seq<Entry>) -> Seq<EntryView> {
    entries.map_values(|entry: Entry| entry@)
}

/// Once the first pass has failed, more lines do not change that.
pub proof fn lemma_first_pass_stays_failed(lines: Seq<Seq<char>>, n: int)
    requires
        0 <= n <= lines.len(),
        first_pass(lines.take(n)) is Err,
    ensures
        first_pass(lines) == first_pass(lines.take(n)),
    decreases lines.len() - n,
{
    if n == lines.len() {
        assert(lines.take(n) =~= lines);
    } else {
        assert(lines.take(n + 1).drop_last() =~= lines.take(n));
        lemma_first_pass_stays_failed(lines, n + 1);
    }
}

/// Once the encoding has failed, more entries do not change that.
pub proof fn lemma_program_words_stays_failed(
    entries: Seq<EntryView>,
    labels: Map<Seq<char>, u32>,
    n: int,
)
    requires
        0 <= n <= entries.len(),
        program_words(entries.take(n), labels) is Err,
    ensures
        program_words(entries, labels) == program_words(entries.take(n), labels),
    decreases entries.len() - n,
{
    if n == entries.len() {
        assert(entries.take(n) =~= entries);
    } else {
        assert(entries.take(n + 1).drop_last() =~= entries.take(n));
        lemma_program_words_stays_failed(entries, labels, n + 1);
    }
}

/// The bytes of two runs of words, one behind the other.
pub proof fn lemma_bytes_of_sum(front: Seq<u32>, back: Seq<u32>)
    ensures
        bytes_of(front + back) == bytes_of(front) + bytes_of(back),
    decreases back.len(),
{
    if back.len() == 0 {
        assert(front + back =~= front);
        assert(bytes_of(front) + bytes_of(back) =~= bytes_of(front));
    } else {
        assert((front + back).drop_last() =~= front + back.drop_last());
        assert((front + back).last() == back.last());
        lemma_bytes_of_sum(front, back.drop_last());
        assert(bytes_of(front + back) =~= bytes_of(front) + bytes_of(back));
    }
}

/// The state of the first pass: the word counter, the number of words that
/// the queue has in the binary, the labels in the order in which they were
/// bound, and the queue.
pub struct Draft {
    pub counter: u32,
    pub size: u32,
    pub labels: Vec<Binding>,
    pub entries: Vec<Entry>,
}

impl View for Draft {
    type V = Pass;

    open spec fn view(&self) -> Pass {
        Pass {
            counter: self.counter,
            labels: bound(self.labels@),
            entries: entry_views(self.entries@),
        }
    }
}

impl Draft {
    /// What holds of every draft: its pass is well formed, and `size` is the
    /// number of words that the queue has.
    pub open spec fn wf(&self) -> bool {
        &&& self@.wf()
        &&& self.size == queued_words(self@.entries)
    }

    /// The state before the first line.
    pub fn new() -> (draft: Draft)
        ensures
            draft@ == Pass::start(),
            draft.wf(),
    {
        let draft = Draft { counter: 0, size: 0, labels: Vec::new(), entries: Vec::new() };
        assert(draft@.entries =~= Seq::empty());
        draft
    }

    /// The position that `name` is bound to, if it is bound.
    pub fn lookup(&self, name: &Vec<char>) -> (found: Option<u32>)
        ensures
            found is Some <==> self@.labels.contains_key(name@),
            found matches Some(position) ==> position == self@.labels[name@],
    {
        let mut n: usize = self.labels.len();
        assert(self.labels@.take(n as int) =~= self.labels@);
        while n > 0
            invariant
                n <= self.labels.len(),
                bound(self.labels@).contains_key(name@) <==> bound(
                    self.labels@.take(n as int),
                ).contains_key(name@),
                bound(self.labels@).contains_key(name@) ==> bound(self.labels@)[name@] == bound(
                    self.labels@.take(n as int),
                )[name@],
            decreases n,
        {
            proof {
                assert(self.labels@.take(n as int).drop_last() =~= self.labels@.take(n - 1));
            }
            if same_text(&self.labels[n - 1].name, name) {
                return Some(self.labels[n - 1].position);
            }
            n -= 1;
        }
        None
    }

    /// Takes one more statement in.
    pub fn take(&mut self, statement: Statement) -> (taken: Result<(), CompileError>)
        requires
            old(self).wf(),
            statement@.source_form(),
        ensures
            match apply(old(self)@, statement@) {
                Ok(pass) => taken is Ok && final(self)@ == pass,
                Err(failure) => taken is Err && taken.unwrap_err()@ == failure && final(self)@
                    == old(self)@,
            },
            final(self).wf(),
    {
        match statement {
            Statement::Label(name) => {
                let ghost before = self.labels@;
                let binding = Binding { name, position: self.counter };
                self.labels.push(binding);
                proof {
                    assert(self.labels@.drop_last() =~= before);
                }
                Ok(())
            },
            Statement::Instruction(entry) => {
                let room: u32 = match &entry.operand {
                    Operand::Register(_) => 1,
                    _ => 2,
                };
                let words: u32 = match &entry.operand {
                    Operand::Register(_) => 1,
                    Operand::Value(_) => if entry.op == Opcode::Increment {
                        1
                    } else {
                        2
                    },
                    Operand::Position(_) => 2,
                    Operand::Label(_) => 2,
                };
                if self.size > MOST_WORDS - 2 - room {
                    return Err(CompileError::ProgramTooLarge);
                }
                let ghost before = entry_views(self.entries@);
                let ghost wanted = resolved(entry@, self@.labels);
                let Entry { op, first, operand } = entry;
                let operand = match operand {
                    Operand::Label(name) => match self.lookup(&name) {
                        Some(position) => Operand::Position(position),
                        None => Operand::Label(name),
                    },
                    other => other,
                };
                let queued = Entry { op, first, operand };
                assert(queued@ == wanted);
                self.entries.push(queued);
                self.counter = self.counter + words;
                self.size = self.size + room;
                proof {
                    assert(entry_views(self.entries@) =~= before.push(wanted));
                    assert(before.push(wanted).drop_last() =~= before);
                }
                Ok(())
            },
        }
    }
    /// Takes one more line of source in.
    pub fn read(&mut self, line: &Vec<char>) -> (taken: Result<(), CompileError>)
        requires
            old(self).wf(),
        ensures
            match read_line(old(self)@, line@) {
                Ok(pass) => taken is Ok && final(self)@ == pass,
                Err(failure) => taken is Err && taken.unwrap_err()@ == failure && final(self)@
                    == old(self)@,
            },
            final(self).wf(),
    {
        let lowered = lowercase(line);
        if holds(&lowered, ';') {
            return Ok(());
        }
        let plain = strip(&lowered, ',');
        let tokens = split_tokens(&plain);
        if tokens.len() == 0 {
            return Ok(());
        }
        match parse_statement(&tokens, &plain) {
            Err(error) => Err(error),
            Ok(statement) => self.take(statement),
        }
    }

    /// The second pass: the binary form of what has been gathered.
    pub fn encode(&self) -> (encoded: Result<Vec<u8>, CompileError>)
        requires
            self.wf(),
        ensures
            assembled_as(encoded, binary_of(self@)),
    {
        let mut buffer: Vec<u8> = Vec::new();
        let ghost mut words: Seq<u32> = Seq::empty();
        let ghost entries = entry_views(self.entries@);
        let ghost labels = bound(self.labels@);
        let mut i: usize = 0;
        assert(entries.take(0) =~= Seq::empty());
        while i < self.entries.len()
            invariant
                i <= self.entries.len(),
                self.wf(),
                entries == entry_views(self.entries@),
                labels == bound(self.labels@),
                program_words(entries.take(i as int), labels) == Ok::<Seq<u32>, Failure>(words),
                buffer@ == bytes_of(words),
            decreases self.entries.len() - i,
        {
            let entry = &self.entries[i];
            proof {
                assert(entries.take(i + 1).drop_last() =~= entries.take(i as int));
                assert(entries.take(i + 1).last() == entry@);
                assert(entries[i as int] == entry@);
            }
            let ghost more: Seq<u32>;
            match &entry.operand {
                Operand::Register(register) => {
                    let word = pack_word(
                        entry.op.hex_value(),
                        entry.first.hex_value(),
                        register.hex_value(),
                    );
                    write_word(&mut buffer, word);
                    proof {
                        more = seq![word];
                    }
                },
                Operand::Value(value) => {
                    let word = pack_word(entry.op.hex_value(), entry.first.hex_value(), 0);
                    write_word(&mut buffer, word);
                    write_word(&mut buffer, *value);
                    proof {
                        more = seq![word, *value];
                    }
                },
                Operand::Position(position) => {
                    let word = pack_word(entry.op.hex_value(), entry.first.hex_value(), 0);
                    write_word(&mut buffer, word);
                    write_word(&mut buffer, *position + 1);
                    proof {
                        more = seq![word, (*position + 1) as u32];
                    }
                },
                Operand::Label(name) => {
                    match self.lookup(name) {
                        None => {
                            proof {
                                lemma_program_words_stays_failed(entries, labels, i + 1);
                            }
                            return Err(CompileError::LabelNotFound(string_of(name)));
                        },
                        Some(position) => {
                            let word = pack_word(entry.op.hex_value(), entry.first.hex_value(), 0);
                            write_word(&mut buffer, word);
                            write_word(&mut buffer, position + 1);
                            proof {
                                more = seq![word, (position + 1) as u32];
                            }
                        },
                    }
                },
            }
            proof {
                assert(entry_words(entry@, labels) == Ok::<Seq<u32>, Failure>(more));
                lemma_bytes_of_sum(words, more);
                lemma_bytes_of_short(more);
                words = words + more;
            }
            i += 1;
        }
        let halt = pack_word(Opcode::Halt.hex_value(), 0, 0);
        write_word(&mut buffer, halt);
        write_word(&mut buffer, 0);
        proof {
            assert(entries.take(i as int) =~= entries);
            lemma_bytes_of_sum(words, halt_words());
            lemma_bytes_of_short(halt_words());
            assert(halt_words()[0] == halt && halt_words()[1] == 0);
            assert(buffer@ =~= bytes_of(words) + (le_bytes(halt) + le_bytes(0)));
        }
        Ok(buffer)
    }
}

/// The bytes of one word, and of two.
pub proof fn lemma_bytes_of_short(words: Seq<u32>)
    requires
        1 <= words.len() <= 2,
    ensures
        words.len() == 1 ==> bytes_of(words) == le_bytes(words[0]),
        words.len() == 2 ==> bytes_of(words) == le_bytes(words[0]) + le_bytes(words[1]),
{
    if words.len() == 1 {
        assert(bytes_of(words.drop_last()) =~= Seq::empty());
        assert(bytes_of(words) =~= le_bytes(words[0]));
    } else {
        assert(words.drop_last().drop_last() =~= Seq::empty());
        assert(bytes_of(words.drop_last().drop_last()) =~= Seq::empty());
        assert(bytes_of(words.drop_last()) =~= le_bytes(words[0]));
    }
}

/// Whether what was assembled is what was to be assembled.
pub open spec fn assembled_as(
    assembled: Result<Vec<u8>, CompileError>,
    wanted: Result<Seq<u8>, Failure>,
) -> bool {
    match wanted {
        Ok(binary) => assembled is Ok && assembled.unwrap()@ == binary,
        Err(failure) => assembled is Err && assembled.unwrap_err()@ == failure,
    }
}

/// Assembles `source`. The result is the binary form of the program, ending
/// in a `Halt`, or the first error; on an error nothing is produced.
pub fn assemble_program(source: &str) -> (assembled: Result<Vec<u8>, CompileError>)
    ensures
        assembled_as(assembled, assemble_spec(source@)),
{
    let text = chars_of(source);
    let lines = split_lines(&text);
    let mut draft = Draft::new();
    let mut i: usize = 0;
    assert(texts(lines@).take(0) =~= Seq::empty());
    while i < lines.len()
        invariant
            i <= lines.len(),
            texts(lines@) == lines_of(source@),
            draft.wf(),
            first_pass(texts(lines@).take(i as int)) == Ok::<Pass, Failure>(draft@),
        decreases lines.len() - i,
    {
        proof {
            assert(texts(lines@).take(i + 1).drop_last() =~= texts(lines@).take(i as int));
            assert(texts(lines@).take(i + 1).last() == lines@[i as int]@);
        }
        match draft.read(&lines[i]) {
            Err(error) => {
                proof {
                    lemma_first_pass_stays_failed(texts(lines@), i + 1);
                }
                return Err(error);
            },
            Ok(()) => {},
        }
        i += 1;
    }
    assert(texts(lines@).take(i as int) =~= texts(lines@));
    draft.encode()
}

/// The message that tells of a failure.
pub open spec fn message_of(failure: Failure) -> Seq<char> {
    match failure {
        Failure::InvalidLine(line) => "invalid line: "@ + quoted(line),
        Failure::NotARegister(token) => "Not a register: "@ + token,
        Failure::LabelNotFound(label) => "Label not found! "@ + label,
        Failure::ProgramTooLarge => "Program too large"@,
    }
}

/// Every failure has something to say.
pub proof fn lemma_message_is_not_empty(failure: Failure)
    ensures
        message_of(failure).len() > 0,
{
    reveal_strlit("invalid line: ");
    reveal_strlit("Not a register: ");
    reveal_strlit("Label not found! ");
    reveal_strlit("Program too large");
}

impl CompileError {
    /// The message that tells of the error.
    pub fn message(&self) -> (text: String)
        ensures
            text@ == message_of(self@),
            text@.len() > 0,
    {
        proof {
            lemma_message_is_not_empty(self@);
        }
        match self {
            CompileError::InvalidLine(line) => {
                let mut text = String::from_str("invalid line: ");
                let shown = quote(line.as_str());
                text.append(shown.as_str());
                text
            },
            CompileError::NotARegister(token) => {
                let mut text = String::from_str("Not a register: ");
                text.append(token.as_str());
                text
            },
            CompileError::LabelNotFound(label) => {
                let mut text = String::from_str("Label not found! ");
                text.append(label.as_str());
                text
            },
            CompileError::ProgramTooLarge => String::from_str("Program too large"),
        }
    }
}

/// How an assembly ended, as the host sees it: the message of the error, or
/// the empty text where there was none.
#[derive(Debug)]
pub struct AResult {
    pub compile_err: String,
}

impl AResult {
    pub fn new(err: Option<String>) -> (result: AResult)
        ensures
            result.compile_err@ == match err {
                Some(text) => text@,
                None => Seq::<char>::empty(),
            },
    {
        let compile_err;
        match err {
            Some(text) => {
                compile_err = text;
            },
            None => {
                compile_err = String::new();
            },
        }
        AResult { compile_err: compile_err }
    }

    /// The result that tells of `assembled`: empty where it is a program,
    /// the message of the error where it is none.
    pub fn of(assembled: &Result<Vec<u8>, CompileError>) -> (result: AResult)
        ensures
            result.compile_err@ == match *assembled {
                Ok(_) => Seq::<char>::empty(),
                Err(error) => message_of(error@),
            },
            *assembled is Ok <==> result.compile_err@.len() == 0,
    {
        match assembled {
            Ok(_) => AResult::new(None),
            Err(error) => AResult::new(Some(error.message())),
        }
    }
}

} // verus!
