use zpu::assembler::assemble_program;
use zpu::terminal::{Command, Stroke, Terminal};
use zpu::text::{chars_of, parse_literal, split_lines, split_tokens};
use zpu::zpu::ZPU;

/// A small generator of numbers, the same on every run.
struct Numbers(u64);

impl Numbers {
    fn next(&mut self) -> u64 {
        self.0 = self.0.wrapping_mul(6364136223846793005).wrapping_add(1442695040888963407);
        self.0 >> 33
    }

    fn below(&mut self, bound: usize) -> usize {
        (self.next() % bound as u64) as usize
    }

    fn text(&mut self, alphabet: &[char], longest: usize) -> String {
        let length = self.below(longest + 1);
        (0..length).map(|_| alphabet[self.below(alphabet.len())]).collect()
    }
}

#[test]
fn lines_are_those_of_the_standard_library() {
    let alphabet = ['a', 'b', ' ', '\n', '\n', '\r', '\r', ';', '\u{e9}'];
    let mut numbers = Numbers(1);
    for _ in 0..3000 {
        let text = numbers.text(&alphabet, 12);
        let expected: Vec<Vec<char>> = text.lines().map(|l| l.chars().collect()).collect();
        assert_eq!(split_lines(&chars_of(&text)), expected, "{:?}", text);
    }
}

#[test]
fn tokens_are_those_of_the_standard_library() {
    let alphabet = ['a', 'b', ':', ' ', ' ', '\t', '\u{a0}', '\u{2003}', '\r', '\u{e9}', '\u{200b}'];
    let mut numbers = Numbers(2);
    for _ in 0..3000 {
        let text = numbers.text(&alphabet, 12);
        let expected: Vec<Vec<char>> =
            text.split_whitespace().map(|t| t.chars().collect()).collect();
        assert_eq!(split_tokens(&chars_of(&text)), expected, "{:?}", text);
    }
}

#[test]
fn literals_are_those_of_the_standard_library() {
    let alphabet = ['0', '1', '2', '4', '9', '9', '+', '-', 'a', ' '];
    let mut numbers = Numbers(3);
    for _ in 0..5000 {
        let text = numbers.text(&alphabet, 12);
        assert_eq!(parse_literal(&chars_of(&text)), text.parse::<u32>().ok(), "{:?}", text);
    }
    for value in [0u32, 1, 9, 10, 4294967294, 4294967295] {
        assert_eq!(parse_literal(&chars_of(&value.to_string())), Some(value));
    }
    for value in [4294967296u64, 4294967297, 42949672950, u64::MAX] {
        assert_eq!(parse_literal(&chars_of(&value.to_string())), None);
    }
}

#[test]
fn any_source_is_assembled_or_refused_and_any_binary_runs_or_faults() {
    let words = [
        "mov", "add", "sub", "mul", "div", "shl", "shr", "cmp", "out", "inc", "hlt", "nop", "jmp",
        "je", "jn", "jz", "jg", "jl", "xor", "push", "a", "b", "c", "z", "0", "1", "7", "40",
        "4294967295", "top", "end", "top:", "end:", ",", ";", "q",
    ];
    let mut numbers = Numbers(4);
    let mut assembled = 0;
    let mut halted = 0;
    for _ in 0..4000 {
        let lines = numbers.below(8);
        let mut source = String::new();
        for _ in 0..lines {
            let count = numbers.below(4);
            for _ in 0..count {
                source.push_str(words[numbers.below(words.len())]);
                source.push(' ');
            }
            source.push('\n');
        }
        if let Ok(binary) = assemble_program(&source) {
            assembled += 1;
            assert_eq!(binary.len() % 4, 0);
            assert_eq!(&binary[binary.len() - 8..], &[0, 0, 2, 0, 0, 0, 0, 0]);
            let mut machine = ZPU::new(binary).unwrap();
            for _ in 0..200 {
                match machine.step() {
                    Ok(result) => {
                        assert_eq!(result.running, machine.running);
                        if !result.running {
                            halted += 1;
                            break;
                        }
                    },
                    Err(_) => break,
                }
            }
        }
    }
    assert!(assembled > 100);
    assert!(halted > 50);
}

#[test]
fn any_bytes_run_or_fault() {
    let mut numbers = Numbers(5);
    for _ in 0..2000 {
        let length = 4 * numbers.below(12);
        let bytes: Vec<u8> = (0..length)
            .map(|i| if i % 4 == 3 || i % 4 == 1 { 0 } else { (numbers.next() % 26) as u8 })
            .collect();
        let mut machine = ZPU::new(bytes.clone()).unwrap();
        for _ in 0..100 {
            let before = (machine.registers, machine.pc, machine.cmp_flag, machine.zero_flag);
            match machine.step() {
                Ok(result) => {
                    if !result.running {
                        break;
                    }
                },
                Err(_) => {
                    let after = (machine.registers, machine.pc, machine.cmp_flag, machine.zero_flag);
                    assert_eq!(before, after);
                    assert!(machine.running);
                    assert_eq!(machine.program, bytes);
                    break;
                },
            }
        }
    }
}


/// The terminal as the host keeps it where it does without the library:
/// lines of text, and columns counted in bytes.
struct Plain {
    lines: Vec<String>,
    cur_x: usize,
    cur_y: usize,
    shift: bool,
}

impl Plain {
    /// Takes a stroke; `None` where this would index no line or count below
    /// zero.
    fn press(&mut self, stroke: Stroke) -> Option<Command> {
        let mut given = '~';
        let mut command = Command::Nothing;
        match stroke {
            Stroke::Type(c) => given = c,
            Stroke::Shift => self.shift = true,
            Stroke::Backspace => {
                if !self.lines.is_empty() && self.lines.get(self.cur_y)?.len() >= 1 {
                    if self.cur_x == self.lines[self.cur_y].len() {
                        self.lines[self.cur_y].pop();
                        self.cur_x -= 1;
                    } else {
                        self.cur_x = self.cur_x.checked_sub(1)?;
                    }
                } else if self.lines.len() >= 2 {
                    if self.cur_y == 0 {
                        return None;
                    }
                    if self.cur_y < self.lines.len() {
                        self.lines.remove(self.cur_y);
                    }
                    self.cur_y -= 1;
                    self.cur_x = self.lines.get(self.cur_y)?.len();
                }
            },
            Stroke::Return => {
                if self.shift {
                    command = Command::Compile;
                } else {
                    if self.cur_y + 1 > self.lines.len() {
                        return None;
                    }
                    self.cur_y += 1;
                    self.cur_x = 0;
                    self.lines.insert(self.cur_y, String::new());
                }
            },
            Stroke::Escape => command = Command::Leave,
            Stroke::Up => {
                if self.cur_y > 0 {
                    self.cur_y -= 1;
                }
            },
            Stroke::Down => self.cur_y += 1,
            Stroke::Left => {
                if self.cur_x > 0 {
                    self.cur_x -= 1;
                }
            },
            Stroke::Right => self.cur_x += 1,
            Stroke::Other => {},
        }
        if self.shift {
            given = match given {
                '1' => '!',
                '2' => '@',
                '3' => '#',
                '4' => '$',
                '5' => '%',
                '6' => '^',
                '7' => '&',
                '8' => '*',
                '9' => '(',
                '0' => ')',
                '[' => '{',
                ']' => '}',
                ';' => ':',
                '\'' => '"',
                ',' => '<',
                '.' => '>',
                '/' => '?',
                '-' => '_',
                '=' => '+',
                _ => given.to_uppercase().next().unwrap(),
            };
        }
        if given != '~' {
            self.lines.get_mut(self.cur_y)?.push(given);
            self.cur_x += 1;
        }
        Some(command)
    }
}

#[test]
fn terminal_follows_the_plain_one_stroke_by_stroke() {
    let strokes = [
        Stroke::Type('a'),
        Stroke::Type('z'),
        Stroke::Type('1'),
        Stroke::Type(';'),
        Stroke::Type(' '),
        Stroke::Type('\u{e9}'),
        Stroke::Shift,
        Stroke::Backspace,
        Stroke::Backspace,
        Stroke::Backspace,
        Stroke::Return,
        Stroke::Return,
        Stroke::Escape,
        Stroke::Up,
        Stroke::Down,
        Stroke::Left,
        Stroke::Right,
        Stroke::Other,
    ];
    let texts = ["mov a, 5\nout a, 42\n", "x", "\n\n\n", "one\n\ntwo\n\n", "\u{e9}t\u{e9}\n"];
    let mut numbers = Numbers(6);
    let mut refused = 0;
    let mut taken = 0;
    for round in 0..600 {
        let text = texts[round % texts.len()];
        let mut terminal = Terminal::new(text).unwrap();
        let mut plain = Plain {
            lines: text.lines().map(String::from).collect(),
            cur_x: text.lines().last().unwrap().len(),
            cur_y: text.lines().count() - 1,
            shift: false,
        };
        for _ in 0..60 {
            let stroke = if numbers.below(12) == 0 {
                terminal.release(Stroke::Shift);
                plain.shift = false;
                Stroke::Other
            } else {
                strokes[numbers.below(strokes.len())]
            };
            let before: Vec<String> =
                terminal.lines.iter().map(|line| line.iter().collect()).collect();
            let cursor = (terminal.cur_x, terminal.cur_y, terminal.shift);
            let answer = terminal.try_press(stroke);
            let mut trial = Plain {
                lines: plain.lines.clone(),
                cur_x: plain.cur_x,
                cur_y: plain.cur_y,
                shift: plain.shift,
            };
            let expected = trial.press(stroke);
            assert_eq!(answer, expected, "{:?} on {:?} at {:?}", stroke, before, cursor);
            let lines: Vec<String> =
                terminal.lines.iter().map(|line| line.iter().collect()).collect();
            if expected.is_some() {
                plain = trial;
                taken += 1;
                assert_eq!(lines, plain.lines);
                assert_eq!(
                    (terminal.cur_x, terminal.cur_y, terminal.shift),
                    (plain.cur_x, plain.cur_y, plain.shift)
                );
            } else {
                refused += 1;
                assert_eq!(lines, before);
                assert_eq!((terminal.cur_x, terminal.cur_y, terminal.shift), cursor);
            }
        }
    }
    assert!(taken > 10000);
    assert!(refused > 100);
}
