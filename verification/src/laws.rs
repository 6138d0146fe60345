//! What holds of the assembler and the machine together: how an assembled
//! program lies in its binary, and how the machine runs it.

use crate::assembler::{
    apply, assemble_spec, binary_of, bytes_of, entry_words, first_pass, halt_words,
    lemma_bytes_of_sum, lemma_message_is_not_empty, lemma_parse_tokens_form,
    lemma_program_words_stays_failed, message_of, program_words, queued_words, read_line, size,
    statement_of, EntryView, Failure, OperandView, Pass, StatementView,
};
use crate::encoding::{le_bytes, lemma_le_round_trip, lemma_pack_fields, pack};
use crate::isa::{Opcode, Register};
use crate::text::{lines_of, lowercase_of, tokens_of, without};
use crate::zpu::{
    fetch_spec, loaded, run_spec, step_spec, taken, whole_words, with_pc, word_at, Fault,
    Instruction, Machine, Output,
};
use vstd::prelude::*;

verus! {

/// A line that is read into a well-formed pass leaves a well-formed pass.
pub proof fn lemma_read_line_keeps_wf(pass: Pass, line: Seq<char>)
    requires
        pass.wf(),
    ensures
        read_line(pass, line) matches Ok(next) ==> next.wf(),
{
    match statement_of(line) {
        Some(Ok(statement)) => {
            let plain = without(lowercase_of(line), ',');
            lemma_parse_tokens_form(tokens_of(plain), plain);
            if let Ok(next) = apply(pass, statement) {
                if statement is Instruction {
                    assert(next.entries.drop_last() =~= pass.entries);
                }
            }
        },
        _ => {},
    }
}

/// What the first pass gathers is well formed.
pub proof fn lemma_first_pass_wf(lines: Seq<Seq<char>>)
    ensures
        first_pass(lines) matches Ok(pass) ==> pass.wf(),
    decreases lines.len(),
{
    if lines.len() > 0 {
        lemma_first_pass_wf(lines.drop_last());
        if let Ok(pass) = first_pass(lines.drop_last()) {
            lemma_read_line_keeps_wf(pass, lines.last());
        }
    }
}

/// Each word takes four bytes.
pub proof fn lemma_bytes_of_len(words: Seq<u32>)
    ensures
        bytes_of(words).len() == 4 * words.len(),
    decreases words.len(),
{
    if words.len() > 0 {
        lemma_bytes_of_len(words.drop_last());
    }
}

/// The word at position `i` of the bytes of `words` is `words[i]`.
pub proof fn lemma_word_at_bytes_of(words: Seq<u32>, i: int)
    requires
        0 <= i < words.len(),
    ensures
        4 * i + 4 <= bytes_of(words).len(),
        word_at(bytes_of(words), i) == words[i],
    decreases words.len(),
{
    let front = words.drop_last();
    lemma_bytes_of_len(words);
    lemma_bytes_of_len(front);
    if i < words.len() - 1 {
        lemma_word_at_bytes_of(front, i);
        assert(bytes_of(words).subrange(4 * i, 4 * i + 4) =~= bytes_of(front).subrange(
            4 * i,
            4 * i + 4,
        ));
    } else {
        lemma_le_round_trip(words.last());
        assert(bytes_of(words).subrange(4 * i, 4 * i + 4) =~= le_bytes(words.last()));
    }
}

/// The place of the instruction `i` of a queue in the binary, in words.
pub open spec fn offset(entries: Seq<EntryView>, i: int) -> int {
    queued_words(entries.take(i))
}

/// The instruction that the machine is to find where the assembler has put
/// `entry`.
pub open spec fn instruction_of(entry: EntryView, labels: Map<Seq<char>, u32>) -> Instruction {
    Instruction {
        op: entry.op,
        first: entry.first,
        second: match entry.operand {
            OperandView::Register(register) => register,
            _ => Register::Null,
        },
        data: match entry.operand {
            OperandView::Register(_) => None,
            OperandView::Value(value) => Some(value),
            OperandView::Position(position) => Some((position + 1) as u32),
            OperandView::Label(name) => Some((labels[name] + 1) as u32),
        },
    }
}

/// The queue has as many words as its instructions have together.
pub proof fn lemma_program_words_len(entries: Seq<EntryView>, labels: Map<Seq<char>, u32>)
    ensures
        queued_words(entries) >= 0,
        program_words(entries, labels) matches Ok(words) ==> words.len() == queued_words(entries),
    decreases entries.len(),
{
    if entries.len() > 0 {
        lemma_program_words_len(entries.drop_last(), labels);
    }
}

/// The words of the first `n` instructions of a queue stand at the front of
/// the words of the queue.
pub proof fn lemma_program_words_front(
    entries: Seq<EntryView>,
    labels: Map<Seq<char>, u32>,
    n: int,
)
    requires
        program_words(entries, labels) is Ok,
        0 <= n <= entries.len(),
    ensures
        program_words(entries.take(n), labels) matches Ok(front) && front.len() == offset(
            entries,
            n,
        ) && front.len() <= program_words(entries, labels)->Ok_0.len() && front
            == program_words(entries, labels)->Ok_0.take(front.len() as int),
    decreases entries.len() - n,
{
    let words = program_words(entries, labels)->Ok_0;
    if n == entries.len() {
        assert(entries.take(n) =~= entries);
        lemma_program_words_len(entries, labels);
        assert(words.take(words.len() as int) =~= words);
    } else {
        lemma_program_words_front(entries, labels, n + 1);
        assert(entries.take(n + 1).drop_last() =~= entries.take(n));
        let longer = program_words(entries.take(n + 1), labels)->Ok_0;
        let front = program_words(entries.take(n), labels)->Ok_0;
        lemma_program_words_len(entries.take(n), labels);
        assert(front =~= longer.take(front.len() as int));
        assert(front =~= words.take(front.len() as int));
    }
}

/// The words of the instruction `i` of a queue stand in the words of the
/// queue at its offset.
pub proof fn lemma_entry_in_words(entries: Seq<EntryView>, labels: Map<Seq<char>, u32>, i: int)
    requires
        program_words(entries, labels) is Ok,
        0 <= i < entries.len(),
    ensures
        0 <= offset(entries, i),
        offset(entries, i + 1) == offset(entries, i) + size(entries[i]),
        offset(entries, i + 1) <= queued_words(entries),
        entry_words(entries[i], labels) matches Ok(own) && own.len() == size(entries[i])
            && program_words(entries, labels)->Ok_0.subrange(
            offset(entries, i),
            offset(entries, i + 1),
        ) == own,
{
    let words = program_words(entries, labels)->Ok_0;
    lemma_program_words_front(entries, labels, i);
    lemma_program_words_front(entries, labels, i + 1);
    lemma_program_words_len(entries, labels);
    assert(entries.take(i + 1).drop_last() =~= entries.take(i));
    assert(entries.take(i + 1).last() == entries[i]);
    let front = program_words(entries.take(i), labels)->Ok_0;
    let longer = program_words(entries.take(i + 1), labels)->Ok_0;
    let own = entry_words(entries[i], labels)->Ok_0;
    assert(longer == front + own);
    assert(front.len() == offset(entries, i));
    assert(longer.len() == offset(entries, i + 1));
    assert(own.len() == size(entries[i]));
    assert forall|k: int| 0 <= k < own.len() implies words[offset(entries, i) + k] == own[k] by {
        assert(words.take(longer.len() as int)[front.len() + k] == longer[front.len() + k]);
        assert((front + own)[front.len() + k] == own[k]);
    }
    assert(words.subrange(offset(entries, i), offset(entries, i + 1)) =~= own);
}

/// Where the assembler has put an instruction, the machine finds it.
pub proof fn lemma_fetch_queued(pass: Pass, i: int)
    requires
        pass.wf(),
        binary_of(pass) is Ok,
        0 <= i < pass.entries.len(),
    ensures
        0 <= offset(pass.entries, i),
        offset(pass.entries, i) + size(pass.entries[i]) + 2 <= u32::MAX,
        fetch_spec(binary_of(pass)->Ok_0, offset(pass.entries, i) as u32) == Ok::<
            Instruction,
            Fault,
        >(instruction_of(pass.entries[i], pass.labels)),
{
    let entries = pass.entries;
    let labels = pass.labels;
    let entry = entries[i];
    let words = program_words(entries, labels)->Ok_0;
    let all = words + halt_words();
    let binary = binary_of(pass)->Ok_0;
    let at = offset(entries, i);
    lemma_entry_in_words(entries, labels, i);
    lemma_program_words_len(entries, labels);
    let own = entry_words(entry, labels)->Ok_0;
    assert(entry.formed());
    assert(own[0] == words[at]);
    assert(all[at] == words[at]);
    lemma_bytes_of_len(all);
    lemma_word_at_bytes_of(all, at);
    let second = instruction_of(entry, labels).second;
    assert(own[0] == pack(entry.op.code(), entry.first.code(), second.code()));
    lemma_pack_fields(entry.op.code(), entry.first.code(), second.code());
    Opcode::lemma_decode_code(entry.op);
    Register::lemma_of_code_code(entry.first);
    Register::lemma_of_code_code(second);
    if second == Register::Null {
        assert(own[1] == words[at + 1]);
        assert(all[at + 1] == words[at + 1]);
        lemma_word_at_bytes_of(all, at + 1);
    }
}

/// Behind the queue the machine finds the `Halt` that ends the program.
pub proof fn lemma_fetch_halt(pass: Pass)
    requires
        pass.wf(),
        binary_of(pass) is Ok,
    ensures
        binary_of(pass)->Ok_0.len() == 4 * (queued_words(pass.entries) + 2),
        fetch_spec(binary_of(pass)->Ok_0, queued_words(pass.entries) as u32) == Ok::<
            Instruction,
            Fault,
        >(
            Instruction {
                op: Opcode::Halt,
                first: Register::Null,
                second: Register::Null,
                data: Some(0u32),
            },
        ),
{
    let words = program_words(pass.entries, pass.labels)->Ok_0;
    let all = words + halt_words();
    let at = queued_words(pass.entries);
    lemma_program_words_len(pass.entries, pass.labels);
    lemma_bytes_of_len(all);
    lemma_word_at_bytes_of(all, at);
    lemma_word_at_bytes_of(all, at + 1);
    assert(all[at] == halt_words()[0]);
    assert(all[at + 1] == halt_words()[1]);
    lemma_pack_fields(Opcode::Halt.code(), 0, 0);
    Opcode::lemma_decode_code(Opcode::Halt);
}

/// Whether every instruction of the queue works on two registers, and none
/// halts or divides.
pub open spec fn straight(entries: Seq<EntryView>) -> bool {
    forall|i: int|
        0 <= i < entries.len() ==> (#[trigger] entries[i]).operand is Register && entries[i].op
            != Opcode::Halt && entries[i].op != Opcode::Divide
}

/// A queue of instructions on two registers has one word for each.
pub proof fn lemma_straight_offsets(entries: Seq<EntryView>, labels: Map<Seq<char>, u32>, i: int)
    requires
        straight(entries),
        0 <= i <= entries.len(),
    ensures
        offset(entries, i) == i,
        program_words(entries.take(i), labels) is Ok,
    decreases i,
{
    if i > 0 {
        lemma_straight_offsets(entries, labels, i - 1);
        assert(entries.take(i).drop_last() =~= entries.take(i - 1));
        assert(entries.take(i).last() == entries[i - 1]);
    }
}

/// A machine that stands at an instruction of a straight program, or at the
/// `Halt` behind them, goes on one word with each step, and stops behind the
/// `Halt`.
pub proof fn lemma_straight_steps(pass: Pass, m: Machine, count: nat)
    requires
        pass.wf(),
        binary_of(pass) is Ok,
        straight(pass.entries),
        m.program == binary_of(pass)->Ok_0,
        m.running,
        m.pc <= pass.entries.len(),
        m.pc + count <= pass.entries.len() + 1,
    ensures
        run_spec(m, count) matches Ok(end) && end.program == m.program && (m.pc + count
            <= pass.entries.len() ==> end.running && end.pc == m.pc + count) && (m.pc + count
            == pass.entries.len() + 1 ==> !end.running && end.pc == pass.entries.len() + 2),
    decreases count,
{
    let n = pass.entries.len() as int;
    if count > 0 {
        lemma_straight_offsets(pass.entries, pass.labels, n);
        assert(pass.entries.take(n) =~= pass.entries);
        if m.pc < n {
            let i = m.pc as int;
            lemma_straight_offsets(pass.entries, pass.labels, i);
            lemma_fetch_queued(pass, i);
            let entry = pass.entries[i];
            assert(entry.formed());
            let next = step_spec(m)->Ok_0.0;
            assert(step_spec(m) is Ok);
            assert(next.pc == m.pc + 1 && next.running && next.program == m.program);
            lemma_straight_steps(pass, next, (count - 1) as nat);
        } else {
            lemma_fetch_halt(pass);
            let next = step_spec(m)->Ok_0.0;
            assert(step_spec(m) is Ok);
            assert(next.pc == n + 2 && !next.running && next.program == m.program);
            assert(count == 1);
            assert(run_spec(next, 0) == Ok::<Machine, Fault>(next));
        }
    }
}

/// A program of instructions on two registers, none of which halts or
/// divides, runs straight through: its binary has one word for each
/// instruction and two for the `Halt` behind them; the machine that is
/// loaded with it stands at word `count` after `count` steps, as long as
/// there are instructions; and the step after the last instruction halts it
/// behind the `Halt`.
pub proof fn lemma_register_program_runs_through(source: Seq<char>, count: nat)
    requires
        first_pass(lines_of(source)) matches Ok(pass) && straight(pass.entries) && count
            <= pass.entries.len() + 1,
    ensures
        ({
            let n = first_pass(lines_of(source))->Ok_0.entries.len();
            let binary = assemble_spec(source)->Ok_0;
            let end = run_spec(loaded(binary), count)->Ok_0;
            &&& assemble_spec(source) is Ok
            &&& binary.len() == 4 * (n + 2)
            &&& run_spec(loaded(binary), count) is Ok
            &&& count <= n ==> end.running && end.pc == count
            &&& count == n + 1 ==> !end.running && end.pc == n + 2
        }),
{
    let pass = first_pass(lines_of(source))->Ok_0;
    let n = pass.entries.len() as int;
    lemma_first_pass_wf(lines_of(source));
    lemma_straight_offsets(pass.entries, pass.labels, n);
    assert(pass.entries.take(n) =~= pass.entries);
    lemma_fetch_halt(pass);
    lemma_straight_steps(pass, loaded(binary_of(pass)->Ok_0), count);
}

/// The position that a branch is to reach: the position of its label.
pub open spec fn target_of(entry: EntryView, labels: Map<Seq<char>, u32>) -> int {
    match entry.operand {
        OperandView::Position(position) => position as int,
        OperandView::Label(name) => labels[name] as int,
        _ => 0,
    }
}

/// A branch of an assembled program, executed where it stands, puts the
/// program counter at the position of its label plus one where it is
/// taken, and behind its own two words where it is not; nothing else
/// changes, and nothing is put out.
pub proof fn lemma_branch_reaches_label(source: Seq<char>, i: int, m: Machine)
    requires
        assemble_spec(source) is Ok,
        0 <= i < first_pass(lines_of(source))->Ok_0.entries.len(),
        first_pass(lines_of(source))->Ok_0.entries[i].op.is_branch(),
        m.program == assemble_spec(source)->Ok_0,
        m.running,
        m.pc == offset(first_pass(lines_of(source))->Ok_0.entries, i),
    ensures
        ({
            let pass = first_pass(lines_of(source))->Ok_0;
            let entry = pass.entries[i];
            &&& 0 <= target_of(entry, pass.labels) + 1 <= u32::MAX
            &&& m.pc + 2 <= u32::MAX
            &&& step_spec(m) == Ok::<(Machine, Option<Output>), Fault>(
                (
                    with_pc(
                        m,
                        if taken(m, entry.op) {
                            (target_of(entry, pass.labels) + 1) as u32
                        } else {
                            (m.pc + 2) as u32
                        },
                    ),
                    None,
                ),
            )
        }),
{
    let pass = first_pass(lines_of(source))->Ok_0;
    let entry = pass.entries[i];
    lemma_first_pass_wf(lines_of(source));
    lemma_fetch_queued(pass, i);
    lemma_entry_in_words(pass.entries, pass.labels, i);
    assert(entry.formed());
}

/// Where the position of its label plus one is the place of an instruction
/// of the program, a branch that is taken makes that instruction the next
/// that the machine reads.
pub proof fn lemma_branch_resumes(source: Seq<char>, i: int, j: int, m: Machine)
    requires
        assemble_spec(source) is Ok,
        0 <= i < first_pass(lines_of(source))->Ok_0.entries.len(),
        0 <= j < first_pass(lines_of(source))->Ok_0.entries.len(),
        first_pass(lines_of(source))->Ok_0.entries[i].op.is_branch(),
        m.program == assemble_spec(source)->Ok_0,
        m.running,
        m.pc == offset(first_pass(lines_of(source))->Ok_0.entries, i),
        taken(m, first_pass(lines_of(source))->Ok_0.entries[i].op),
        offset(first_pass(lines_of(source))->Ok_0.entries, j) == target_of(
            first_pass(lines_of(source))->Ok_0.entries[i],
            first_pass(lines_of(source))->Ok_0.labels,
        ) + 1,
    ensures
        ({
            let pass = first_pass(lines_of(source))->Ok_0;
            step_spec(m) matches Ok((next, _)) && fetch_spec(next.program, next.pc) == Ok::<
                Instruction,
                Fault,
            >(instruction_of(pass.entries[j], pass.labels))
        }),
{
    let pass = first_pass(lines_of(source))->Ok_0;
    lemma_first_pass_wf(lines_of(source));
    lemma_branch_reaches_label(source, i, m);
    lemma_fetch_queued(pass, j);
}

/// A machine that has halted stays as it is, whatever the number of steps.
pub proof fn lemma_halted_stays(m: Machine, count: nat)
    requires
        !m.running,
    ensures
        step_spec(m) == Ok::<(Machine, Option<Output>), Fault>((m, None)),
        run_spec(m, count) == Ok::<Machine, Fault>(m),
    decreases count,
{
    if count > 0 {
        lemma_halted_stays(m, (count - 1) as nat);
    }
}

/// The program that is a `Halt` and nothing else, which is what the empty
/// source assembles to, halts the machine at its first step, and puts
/// nothing out.
pub proof fn lemma_halt_alone_halts()
    ensures
        assemble_spec(Seq::empty()) == Ok::<Seq<u8>, Failure>(bytes_of(halt_words())),
        step_spec(loaded(bytes_of(halt_words()))) matches Ok((next, output)) && !next.running
            && output is None,
{
    let pass = Pass::start();
    assert(Seq::<u32>::empty() + halt_words() =~= halt_words());
    assert(pass.wf());
    lemma_fetch_halt(pass);
}

/// Every failure of the second pass is a label that was not found.
pub proof fn lemma_program_words_failure(entries: Seq<EntryView>, labels: Map<Seq<char>, u32>)
    ensures
        program_words(entries, labels) matches Err(failure) ==> failure is LabelNotFound,
    decreases entries.len(),
{
    if entries.len() > 0 {
        lemma_program_words_failure(entries.drop_last(), labels);
    }
}

/// A source that branches to a label that it does not declare is not
/// assembled: the result is the failure to find a label, with a message
/// that is not empty, and no binary.
pub proof fn lemma_unbound_label_fails(source: Seq<char>, i: int)
    requires
        first_pass(lines_of(source)) is Ok,
        0 <= i < first_pass(lines_of(source))->Ok_0.entries.len(),
        first_pass(lines_of(source))->Ok_0.entries[i].operand matches OperandView::Label(name)
            && !first_pass(lines_of(source))->Ok_0.labels.contains_key(name),
    ensures
        assemble_spec(source) matches Err(failure) && failure is LabelNotFound && message_of(
            failure,
        ).len() > 0,
{
    let pass = first_pass(lines_of(source))->Ok_0;
    let entries = pass.entries;
    assert(entries.take(i + 1).drop_last() =~= entries.take(i));
    assert(entries.take(i + 1).last() == entries[i]);
    assert(program_words(entries.take(i + 1), pass.labels) is Err);
    lemma_program_words_stays_failed(entries, pass.labels, i + 1);
    lemma_program_words_failure(entries, pass.labels);
    lemma_message_is_not_empty(assemble_spec(source)->Err_0);
}

/// Every binary that the assembler gives is a whole number of words, so
/// that a machine takes it, and ends in the two words of a `Halt`, which is
/// what the machine finds there.
pub proof fn lemma_binary_ends_in_halt(source: Seq<char>)
    requires
        assemble_spec(source) is Ok,
    ensures
        ({
            let binary = assemble_spec(source)->Ok_0;
            let words = queued_words(first_pass(lines_of(source))->Ok_0.entries);
            &&& whole_words(binary)
            &&& 0 <= words
            &&& binary.len() == 4 * (words + 2)
            &&& binary.len() <= 4 * u32::MAX
            &&& binary.subrange(4 * words, 4 * words + 8) == bytes_of(halt_words())
            &&& fetch_spec(binary, words as u32) == Ok::<Instruction, Fault>(
                Instruction {
                    op: Opcode::Halt,
                    first: Register::Null,
                    second: Register::Null,
                    data: Some(0u32),
                },
            )
        }),
{
    let pass = first_pass(lines_of(source))->Ok_0;
    let words = program_words(pass.entries, pass.labels)->Ok_0;
    lemma_first_pass_wf(lines_of(source));
    lemma_fetch_halt(pass);
    lemma_program_words_len(pass.entries, pass.labels);
    lemma_bytes_of_sum(words, halt_words());
    lemma_bytes_of_len(words);
    lemma_bytes_of_len(halt_words());
    let at = 4 * words.len() as int;
    assert((bytes_of(words) + bytes_of(halt_words())).subrange(at, at + 8) =~= bytes_of(
        halt_words(),
    ));
}

/// A branch is queued with the position that its label has when the branch
/// is read, where the label is bound by then, and with the name of the
/// label where it is not.
pub proof fn lemma_branch_is_queued(pass: Pass, op: Opcode, name: Seq<char>)
    requires
        pass.wf(),
        op.is_branch(),
        apply(
            pass,
            StatementView::Instruction(
                EntryView { op, first: Register::Null, operand: OperandView::Label(name) },
            ),
        ) is Ok,
    ensures
        ({
            let next = apply(
                pass,
                StatementView::Instruction(
                    EntryView { op, first: Register::Null, operand: OperandView::Label(name) },
                ),
            )->Ok_0;
            &&& next.counter == pass.counter + 2
            &&& next.labels == pass.labels
            &&& next.entries.len() == pass.entries.len() + 1
            &&& next.entries.last().op == op
            &&& next.entries.last().operand == if pass.labels.contains_key(name) {
                OperandView::Position(pass.labels[name])
            } else {
                OperandView::Label(name)
            }
        }),
{
}

} // verus!
