//! The terminal at which the program of the machine is written: its lines,
//! its cursor, and what a key stroke does to them.
//!
//! The cursor column counts bytes of the line as UTF-8, the cursor line
//! counts lines. A stroke that the terminal cannot take (a character typed
//! while the cursor stands on no line, a line erased above the first) is
//! refused by `try_press`, which then changes nothing.

use crate::text::{chars_of, lines_of, split_lines, texts};
use crate::zpu::Output;
use vstd::prelude::*;

verus! {

/// The first character of the upper-case form that the standard library
/// gives a character.
pub uninterp spec fn first_upper(c: char) -> char;

/// Asks `char::to_uppercase` for the first character of the upper-case form
/// of `c`. Taken on trust: there is such a character, and it depends on `c`
/// alone.
#[verifier::external_body]
pub(crate) fn upper(c: char) -> (first: char)
    ensures
        first == first_upper(c),
{
    c.to_uppercase().next().unwrap()
}

/// The number of bytes that a character takes in UTF-8.
pub open spec fn utf8_width(c: char) -> nat {
    if (c as u32) < 0x80 {
        1
    } else if (c as u32) < 0x800 {
        2
    } else if (c as u32) < 0x10000 {
        3
    } else {
        4
    }
}

/// The number of bytes that a line takes in UTF-8.
pub open spec fn breadth(line: Seq<char>) -> nat
    decreases line.len(),
{
    if line.len() == 0 {
        0
    } else {
        breadth(line.drop_last()) + utf8_width(line.last())
    }
}

/// A line is no less broad than any part at its front.
pub proof fn lemma_breadth_grows(line: Seq<char>, n: int)
    requires
        0 <= n <= line.len(),
    ensures
        breadth(line.take(n)) <= breadth(line),
        n <= breadth(line.take(n)) <= 4 * n,
    decreases line.len() - n,
{
    lemma_breadth_bounds(line.take(n));
    if n == line.len() {
        assert(line.take(n) =~= line);
    } else {
        assert(line.take(n + 1).drop_last() =~= line.take(n));
        lemma_breadth_grows(line, n + 1);
    }
}

/// A line takes at least one byte and at most four for each character.
pub proof fn lemma_breadth_bounds(line: Seq<char>)
    ensures
        line.len() <= breadth(line) <= 4 * line.len(),
    decreases line.len(),
{
    if line.len() > 0 {
        lemma_breadth_bounds(line.drop_last());
    }
}

/// The number of bytes that `c` takes in UTF-8.
pub fn width_of(c: char) -> (width: usize)
    ensures
        width == utf8_width(c),
{
    let code = c as u32;
    if code < 0x80 {
        1
    } else if code < 0x800 {
        2
    } else if code < 0x10000 {
        3
    } else {
        4
    }
}

/// The number of bytes that `line` takes in UTF-8, or `None` where that
/// number does not fit.
pub fn byte_len(line: &Vec<char>) -> (bytes: Option<usize>)
    ensures
        breadth(line@) <= usize::MAX ==> bytes == Some(breadth(line@) as usize),
        breadth(line@) > usize::MAX ==> bytes is None,
{
    let mut total: usize = 0;
    let mut i: usize = 0;
    assert(line@.take(0) =~= Seq::<char>::empty());
    while i < line.len()
        invariant
            i <= line.len(),
            total == breadth(line@.take(i as int)),
        decreases line.len() - i,
    {
        proof {
            assert(line@.take(i + 1).drop_last() =~= line@.take(i as int));
            lemma_breadth_grows(line@, i + 1);
        }
        match total.checked_add(width_of(line[i])) {
            None => {
                return None;
            },
            Some(more) => {
                total = more;
            },
        }
        i += 1;
    }
    assert(line@.take(i as int) =~= line@);
    Some(total)
}

/// The character that a key gives while shift is held: the sign above a
/// digit or a punctuation mark, and for any other character the first of its
/// upper-case form.
pub open spec fn shifted(c: char) -> char {
    if c == '1' {
        '!'
    } else if c == '2' {
        '@'
    } else if c == '3' {
        '#'
    } else if c == '4' {
        '$'
    } else if c == '5' {
        '%'
    } else if c == '6' {
        '^'
    } else if c == '7' {
        '&'
    } else if c == '8' {
        '*'
    } else if c == '9' {
        '('
    } else if c == '0' {
        ')'
    } else if c == '[' {
        '{'
    } else if c == ']' {
        '}'
    } else if c == ';' {
        ':'
    } else if c == '\'' {
        '"'
    } else if c == ',' {
        '<'
    } else if c == '.' {
        '>'
    } else if c == '/' {
        '?'
    } else if c == '-' {
        '_'
    } else if c == '=' {
        '+'
    } else {
        first_upper(c)
    }
}

/// The character that a key gives while shift is held.
pub fn shift_char(c: char) -> (given: char)
    ensures
        given == shifted(c),
{
    match c {
        '1' => '!',
        '2' => '@',
        '3' => '#',
        '4' => '$',
        '5' => '%',
        '6' => '^',
        '7' => '&',
        '8' => '*',
        '9' => '(',
        '0' => ')',
        '[' => '{',
        ']' => '}',
        ';' => ':',
        '\'' => '"',
        ',' => '<',
        '.' => '>',
        '/' => '?',
        '-' => '_',
        '=' => '+',
        _ => upper(c),
    }
}

/// The decimal digit for a number below ten.
pub open spec fn digit_char(digit: nat) -> char {
    if digit == 0 {
        '0'
    } else if digit == 1 {
        '1'
    } else if digit == 2 {
        '2'
    } else if digit == 3 {
        '3'
    } else if digit == 4 {
        '4'
    } else if digit == 5 {
        '5'
    } else if digit == 6 {
        '6'
    } else if digit == 7 {
        '7'
    } else if digit == 8 {
        '8'
    } else {
        '9'
    }
}

/// A number in decimal digits, without leading zeros.
pub open spec fn number_text(value: nat) -> Seq<char>
    decreases value,
{
    if value < 10 {
        seq![digit_char(value)]
    } else {
        number_text(value / 10).push(digit_char(value % 10))
    }
}

/// The decimal digit for a number below ten.
pub fn digit_of(digit: u32) -> (c: char)
    requires
        digit < 10,
    ensures
        c == digit_char(digit as nat),
{
    match digit {
        0 => '0',
        1 => '1',
        2 => '2',
        3 => '3',
        4 => '4',
        5 => '5',
        6 => '6',
        7 => '7',
        8 => '8',
        _ => '9',
    }
}

/// Writes `value` in decimal digits behind what `buffer` holds.
pub fn push_number(buffer: &mut Vec<char>, value: u32)
    ensures
        final(buffer)@ == old(buffer)@ + number_text(value as nat),
    decreases value,
{
    if value >= 10 {
        push_number(buffer, value / 10);
    }
    buffer.push(digit_of(value % 10));
    assert(buffer@ =~= old(buffer)@ + number_text(value as nat));
}

/// The character whose code is the low byte of `data`.
pub open spec fn low_char(data: u32) -> char {
    ((data % 256) as u8) as char
}

/// The character whose code is the low byte of `data`.
pub fn char_of_low_byte(data: u32) -> (c: char)
    ensures
        c == low_char(data),
{
    let low: u8 = (data % 256) as u8;
    low as char
}

/// Ten to the power of `k`.
pub open spec fn power_of_ten(k: nat) -> nat
    decreases k,
{
    if k == 0 {
        1
    } else {
        10 * power_of_ten((k - 1) as nat)
    }
}

/// A number below ten to the power of `k` has no more than `k` digits.
pub proof fn lemma_number_text_len(value: nat, k: nat)
    requires
        k >= 1,
        value < power_of_ten(k),
    ensures
        1 <= number_text(value).len() <= k,
    decreases k,
{
    if value >= 10 {
        assert(power_of_ten(1) == 10) by {
            reveal_with_fuel(power_of_ten, 2);
        }
        lemma_number_text_len(value / 10, (k - 1) as nat);
    }
}

/// What is shown for a number of 32 bits has no more than ten digits.
pub proof fn lemma_word_text_len(value: u32)
    ensures
        1 <= number_text(value as nat).len() <= 10,
{
    assert(power_of_ten(10) == 10_000_000_000) by {
        reveal_with_fuel(power_of_ten, 11);
    }
    lemma_number_text_len(value as nat, 10);
}

/// A key stroke as the terminal sees it.
#[derive(Debug, Clone, Copy, PartialEq, Eq, Structural)]
pub enum Stroke {
    /// A key that gives a character; the character is the one that the key
    /// gives without shift.
    Type(char),
    Shift,
    Backspace,
    Return,
    Escape,
    Up,
    Down,
    Left,
    Right,
    /// Any other key.
    Other,
}

/// What the host is to do after a key stroke.
#[derive(Debug, Clone, Copy, PartialEq, Eq, Structural)]
pub enum Command {
    /// Nothing.
    Nothing,
    /// Save the lines, assemble them, and load the program.
    Compile,
    /// Leave the terminal.
    Leave,
}

/// The terminal: its lines, the cursor, and whether shift is held.
pub struct Terminal {
    pub lines: Vec<Vec<char>>,
    pub cur_x: usize,
    pub cur_y: usize,
    pub shift: bool,
}

/// A `Terminal` as a value.
pub struct Screen {
    pub lines: Seq<Seq<char>>,
    pub cur_x: usize,
    pub cur_y: usize,
    pub shift: bool,
}

impl View for Terminal {
    type V = Screen;

    open spec fn view(&self) -> Screen {
        Screen {
            lines: texts(self.lines@),
            cur_x: self.cur_x,
            cur_y: self.cur_y,
            shift: self.shift,
        }
    }
}

impl Screen {
    /// Whether the number of bytes of every line fits.
    pub open spec fn wf(self) -> bool {
        forall|i: int| 0 <= i < self.lines.len() ==> breadth(#[trigger] self.lines[i]) <= usize::MAX
    }

    /// The screen on which `text` is opened: the lines of the text, with the
    /// cursor at the end of the last.
    pub open spec fn opened(text: Seq<char>) -> Screen {
        let lines = lines_of(text);
        Screen {
            lines,
            cur_x: breadth(lines.last()) as usize,
            cur_y: (lines.len() - 1) as usize,
            shift: false,
        }
    }
}

/// The character that a key gives: the one it is marked with, or, while
/// shift is held, the one above it.
pub open spec fn keyed(shift: bool, c: char) -> char {
    if shift {
        shifted(c)
    } else {
        c
    }
}

/// The screen after a key has given a character. The character goes to the
/// end of the line of the cursor, and the cursor one column on. The tilde
/// stands for no character.
pub open spec fn typed(s: Screen, c: char) -> Screen {
    let given = keyed(s.shift, c);
    if given == '~' {
        s
    } else {
        Screen {
            lines: s.lines.update(s.cur_y as int, s.lines[s.cur_y as int].push(given)),
            cur_x: (s.cur_x + 1) as usize,
            ..s
        }
    }
}

/// The screen after the backspace key. On a line that is not empty the
/// cursor goes one column back, and where it stood at the end of the line,
/// the last character of the line goes. On an empty line that is not the
/// only one, the line goes, and the cursor goes to the end of the line
/// above.
pub open spec fn erased(s: Screen) -> Screen {
    let line = s.lines[s.cur_y as int];
    if s.lines.len() > 0 && line.len() >= 1 {
        if s.cur_x == breadth(line) {
            Screen {
                lines: s.lines.update(s.cur_y as int, line.drop_last()),
                cur_x: (s.cur_x - 1) as usize,
                ..s
            }
        } else {
            Screen { cur_x: (s.cur_x - 1) as usize, ..s }
        }
    } else if s.lines.len() >= 2 {
        let lines = s.lines.remove(s.cur_y as int);
        Screen {
            lines,
            cur_x: breadth(lines[s.cur_y - 1]) as usize,
            cur_y: (s.cur_y - 1) as usize,
            ..s
        }
    } else {
        s
    }
}

/// The screen after the return key. While shift is held nothing changes;
/// else an empty line is put in below the line of the cursor, and the cursor
/// goes to its start.
pub open spec fn entered(s: Screen) -> Screen {
    if s.shift {
        s
    } else {
        Screen {
            lines: s.lines.insert(s.cur_y + 1, Seq::empty()),
            cur_x: 0,
            cur_y: (s.cur_y + 1) as usize,
            ..s
        }
    }
}

/// The screen after a key stroke, and what the host is to do.
pub open spec fn pressed(s: Screen, stroke: Stroke) -> (Screen, Command) {
    match stroke {
        Stroke::Type(c) => (typed(s, c), Command::Nothing),
        Stroke::Shift => (Screen { shift: true, ..s }, Command::Nothing),
        Stroke::Backspace => (erased(s), Command::Nothing),
        Stroke::Return => (
            entered(s),
            if s.shift {
                Command::Compile
            } else {
                Command::Nothing
            },
        ),
        Stroke::Escape => (s, Command::Leave),
        Stroke::Up => (
            if s.cur_y > 0 {
                Screen { cur_y: (s.cur_y - 1) as usize, ..s }
            } else {
                s
            },
            Command::Nothing,
        ),
        Stroke::Down => (Screen { cur_y: (s.cur_y + 1) as usize, ..s }, Command::Nothing),
        Stroke::Left => (
            if s.cur_x > 0 {
                Screen { cur_x: (s.cur_x - 1) as usize, ..s }
            } else {
                s
            },
            Command::Nothing,
        ),
        Stroke::Right => (Screen { cur_x: (s.cur_x + 1) as usize, ..s }, Command::Nothing),
        Stroke::Other => (s, Command::Nothing),
    }
}

/// Whether the screen can take the stroke. A character needs a line under
/// the cursor, and room on it. Backspace needs a line under the cursor
/// unless there is no line at all, a column to go back to, and on an empty
/// line a line above. Return needs a line under the cursor unless shift is
/// held. The cursor cannot go beyond what a count can hold.
pub open spec fn accepts(s: Screen, stroke: Stroke) -> bool {
    let line = s.lines[s.cur_y as int];
    match stroke {
        Stroke::Type(c) => keyed(s.shift, c) == '~' || (s.cur_y < s.lines.len() && s.cur_x
            < usize::MAX && breadth(line) + utf8_width(keyed(s.shift, c)) <= usize::MAX),
        Stroke::Backspace => s.lines.len() == 0 || (s.cur_y < s.lines.len() && if line.len()
            >= 1 {
            s.cur_x == breadth(line) || s.cur_x >= 1
        } else {
            s.lines.len() >= 2 ==> s.cur_y >= 1
        }),
        Stroke::Return => s.shift || s.cur_y < s.lines.len(),
        Stroke::Down => s.cur_y < usize::MAX,
        Stroke::Right => s.cur_x < usize::MAX,
        _ => true,
    }
}

/// What the machine puts out on the terminal: on port 0 the number, on port
/// 1 the character whose code is the low byte of the number, each behind a
/// semicolon; on any other port nothing.
pub open spec fn shown(output: Output) -> Option<Seq<char>> {
    if output.port == 0 {
        Some(seq![';'] + number_text(output.data as nat))
    } else if output.port == 1 {
        Some(seq![';', low_char(output.data)])
    } else {
        None
    }
}

impl Terminal {
    /// Whether the number of bytes of every line fits.
    pub open spec fn wf(&self) -> bool {
        self@.wf()
    }

    /// The terminal on which `text` is opened, or `None` where the text has
    /// no line, or a line of more bytes than can be counted.
    pub fn new(text: &str) -> (opened: Option<Terminal>)
        ensures
            opened is Some <==> lines_of(text@).len() > 0 && Screen::opened(text@).wf(),
            opened matches Some(terminal) ==> terminal@ == Screen::opened(text@) && terminal.wf(),
    {
        let lines = split_lines(&chars_of(text));
        if lines.len() == 0 {
            return None;
        }
        let mut i: usize = 0;
        let mut last: usize = 0;
        while i < lines.len()
            invariant
                i <= lines.len(),
                lines.len() > 0,
                texts(lines@) == lines_of(text@),
                forall|j: int| 0 <= j < i ==> breadth(#[trigger] texts(lines@)[j]) <= usize::MAX,
                i > 0 ==> last == breadth(texts(lines@)[i - 1]),
            decreases lines.len() - i,
        {
            match byte_len(&lines[i]) {
                None => {
                    proof {
                        assert(texts(lines@)[i as int] == lines@[i as int]@);
                        assert(Screen::opened(text@).lines[i as int] == texts(lines@)[i as int]);
                    }
                    return None;
                },
                Some(bytes) => {
                    assert(texts(lines@)[i as int] == lines@[i as int]@);
                    last = bytes;
                },
            }
            i += 1;
        }
        let cur_y = lines.len() - 1;
        Some(Terminal { lines, cur_x: last, cur_y, shift: false })
    }

    /// Whether the terminal can take the stroke.
    pub fn can_press(&self, stroke: Stroke) -> (yes: bool)
        requires
            self.wf(),
        ensures
            yes == accepts(self@, stroke),
    {
        match stroke {
            Stroke::Type(c) => {
                let given = if self.shift {
                    shift_char(c)
                } else {
                    c
                };
                if given == '~' {
                    true
                } else if self.cur_y < self.lines.len() && self.cur_x < usize::MAX {
                    assert(self@.lines[self.cur_y as int] == self.lines@[self.cur_y as int]@);
                    match byte_len(&self.lines[self.cur_y]) {
                        None => false,
                        Some(bytes) => bytes <= usize::MAX - width_of(given),
                    }
                } else {
                    false
                }
            },
            Stroke::Backspace => {
                if self.lines.len() == 0 {
                    true
                } else if self.cur_y >= self.lines.len() {
                    false
                } else {
                    assert(self@.lines[self.cur_y as int] == self.lines@[self.cur_y as int]@);
                    if self.lines[self.cur_y].len() >= 1 {
                        match byte_len(&self.lines[self.cur_y]) {
                            None => false,
                            Some(bytes) => self.cur_x == bytes || self.cur_x >= 1,
                        }
                    } else {
                        self.lines.len() < 2 || self.cur_y >= 1
                    }
                }
            },
            Stroke::Return => self.shift || self.cur_y < self.lines.len(),
            Stroke::Down => self.cur_y < usize::MAX,
            Stroke::Right => self.cur_x < usize::MAX,
            _ => true,
        }
    }

    /// Takes a key stroke.
    pub fn press(&mut self, stroke: Stroke) -> (command: Command)
        requires
            old(self).wf(),
            accepts(old(self)@, stroke),
        ensures
            (final(self)@, command) == pressed(old(self)@, stroke),
            final(self).wf(),
    {
        let ghost before = self@;
        match stroke {
            Stroke::Type(c) => {
                let given = if self.shift {
                    shift_char(c)
                } else {
                    c
                };
                if given != '~' {
                    assert(before.lines[self.cur_y as int] == self.lines@[self.cur_y as int]@);
                    self.lines[self.cur_y].push(given);
                    self.cur_x = self.cur_x + 1;
                    proof {
                        let line = before.lines[self.cur_y as int];
                        assert(line.push(given).drop_last() =~= line);
                        assert(self@.lines =~= before.lines.update(
                            self.cur_y as int,
                            line.push(given),
                        ));
                    }
                }
                Command::Nothing
            },
            Stroke::Shift => {
                self.shift = true;
                Command::Nothing
            },
            Stroke::Backspace => {
                if self.lines.len() > 0 && self.lines[self.cur_y].len() >= 1 {
                    assert(before.lines[self.cur_y as int] == self.lines@[self.cur_y as int]@);
                    let bytes = byte_len(&self.lines[self.cur_y]);
                    if self.cur_x == bytes.unwrap() {
                        self.lines[self.cur_y].pop();
                        self.cur_x = self.cur_x - 1;
                        proof {
                            let line = before.lines[self.cur_y as int];
                            assert(self@.lines =~= before.lines.update(
                                self.cur_y as int,
                                line.drop_last(),
                            ));
                        }
                    } else {
                        self.cur_x = self.cur_x - 1;
                    }
                } else if self.lines.len() >= 2 {
                    self.lines.remove(self.cur_y);
                    self.cur_y = self.cur_y - 1;
                    proof {
                        assert(self@.lines =~= before.lines.remove(before.cur_y as int));
                        assert(self@.lines[self.cur_y as int] == self.lines@[self.cur_y as int]@);
                    }
                    let bytes = byte_len(&self.lines[self.cur_y]);
                    self.cur_x = bytes.unwrap();
                }
                Command::Nothing
            },
            Stroke::Return => {
                if self.shift {
                    Command::Compile
                } else {
                    assert(before.lines.len() == self.lines.len());
                    self.cur_y = self.cur_y + 1;
                    self.cur_x = 0;
                    self.lines.insert(self.cur_y, Vec::new());
                    proof {
                        assert(self@.lines =~= before.lines.insert(
                            before.cur_y + 1,
                            Seq::empty(),
                        ));
                    }
                    Command::Nothing
                }
            },
            Stroke::Escape => Command::Leave,
            Stroke::Up => {
                if self.cur_y > 0 {
                    self.cur_y = self.cur_y - 1;
                }
                Command::Nothing
            },
            Stroke::Down => {
                self.cur_y = self.cur_y + 1;
                Command::Nothing
            },
            Stroke::Left => {
                if self.cur_x > 0 {
                    self.cur_x = self.cur_x - 1;
                }
                Command::Nothing
            },
            Stroke::Right => {
                self.cur_x = self.cur_x + 1;
                Command::Nothing
            },
            Stroke::Other => Command::Nothing,
        }
    }

    /// Takes a key stroke where the terminal can take it, and else changes
    /// nothing.
    pub fn try_press(&mut self, stroke: Stroke) -> (command: Option<Command>)
        requires
            old(self).wf(),
        ensures
            final(self).wf(),
            accepts(old(self)@, stroke) ==> command == Some(pressed(old(self)@, stroke).1)
                && final(self)@ == pressed(old(self)@, stroke).0,
            !accepts(old(self)@, stroke) ==> command is None && final(self)@ == old(self)@,
    {
        if self.can_press(stroke) {
            Some(self.press(stroke))
        } else {
            None
        }
    }

    /// Takes note that a key has been let go: shift is no longer held where
    /// the key is shift, and nothing changes for any other key.
    pub fn release(&mut self, stroke: Stroke)
        ensures
            final(self)@ == (Screen {
                shift: old(self)@.shift && stroke != Stroke::Shift,
                ..old(self)@
            }),
    {
        if stroke == Stroke::Shift {
            self.shift = false;
        }
    }

    /// Shows what the machine has put out: a line behind the last where the
    /// port is one of the terminal's, and nothing else.
    pub fn show(&mut self, output: Output)
        requires
            old(self).wf(),
        ensures
            final(self).wf(),
            final(self)@ == (Screen {
                lines: match shown(output) {
                    Some(line) => old(self)@.lines.push(line),
                    None => old(self)@.lines,
                },
                ..old(self)@
            }),
    {
        let ghost before = self@;
        if output.port == 0 {
            let mut line: Vec<char> = Vec::new();
            line.push(';');
            push_number(&mut line, output.data);
            proof {
                lemma_word_text_len(output.data);
                lemma_breadth_bounds(line@);
            }
            self.lines.push(line);
            assert(self@.lines =~= before.lines.push(shown(output)->Some_0));
        } else if output.port == 1 {
            let mut line: Vec<char> = Vec::new();
            line.push(';');
            line.push(char_of_low_byte(output.data));
            proof {
                lemma_breadth_bounds(line@);
                assert(line@ =~= seq![';', low_char(output.data)]);
            }
            self.lines.push(line);
            assert(self@.lines =~= before.lines.push(shown(output)->Some_0));
        }
    }
}

} // verus!
