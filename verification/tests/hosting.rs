use zpu::keyboard::{Inputs, Key, KeyState, Steering};
use zpu::ship::{order_of, Order};
use zpu::terminal::{
    byte_len, char_of_low_byte, digit_of, push_number, shift_char, width_of, Command, Stroke,
    Terminal,
};
use zpu::text::{parse_count, parse_number};
use zpu::tiles::{parse_grid, parse_values, wall_of, GridError, TileGrid, Wall};
use zpu::zpu::Output;

fn chars(text: &str) -> Vec<char> {
    text.chars().collect()
}

fn lines(terminal: &Terminal) -> Vec<String> {
    terminal.lines.iter().map(|line| line.iter().collect()).collect()
}

fn terminal(lines: &[&str], cur_x: usize, cur_y: usize, shift: bool) -> Terminal {
    Terminal { lines: lines.iter().map(|line| chars(line)).collect(), cur_x, cur_y, shift }
}

fn state(terminal: &Terminal) -> (Vec<String>, usize, usize, bool) {
    (lines(terminal), terminal.cur_x, terminal.cur_y, terminal.shift)
}

fn after(lines: &[&str], cur_x: usize, cur_y: usize, shift: bool) -> (Vec<String>, usize, usize, bool) {
    (lines.iter().map(|line| line.to_string()).collect(), cur_x, cur_y, shift)
}

#[test]
fn characters_take_one_to_four_bytes() {
    for c in ['\0', 'a', '~', '\u{7f}', '\u{80}', '\u{e9}', '\u{7ff}', '\u{800}', '\u{20ac}',
        '\u{ffff}', '\u{10000}', '\u{1f600}', '\u{10ffff}']
    {
        assert_eq!(width_of(c), c.len_utf8(), "{:?}", c);
    }
    assert_eq!(byte_len(&chars("")), Some(0));
    assert_eq!(byte_len(&chars("mov a, 5")), Some(8));
    assert_eq!(byte_len(&chars("\u{e9}t\u{e9} \u{1f600}")), Some(10));
}

#[test]
fn shift_gives_the_signs_above_and_capitals() {
    let table = [
        ('1', '!'), ('2', '@'), ('3', '#'), ('4', '$'), ('5', '%'), ('6', '^'), ('7', '&'),
        ('8', '*'), ('9', '('), ('0', ')'), ('[', '{'), (']', '}'), (';', ':'), ('\'', '"'),
        (',', '<'), ('.', '>'), ('/', '?'), ('-', '_'), ('=', '+'), ('a', 'A'), ('z', 'Z'),
        (' ', ' '), ('~', '~'), ('\u{e9}', '\u{c9}'), ('\u{df}', 'S'),
    ];
    for (key, given) in table {
        assert_eq!(shift_char(key), given, "{:?}", key);
    }
}

#[test]
fn numbers_are_written_in_decimal() {
    for value in [0u32, 1, 9, 10, 11, 99, 100, 101, 12345, 1000000, 4294967295] {
        let mut buffer = chars("n=");
        push_number(&mut buffer, value);
        assert_eq!(buffer.iter().collect::<String>(), format!("n={}", value));
    }
    for digit in 0..10u32 {
        assert_eq!(digit_of(digit), char::from_digit(digit, 10).unwrap());
    }
}

#[test]
fn low_byte_gives_the_character() {
    assert_eq!(char_of_low_byte(65), 'A');
    assert_eq!(char_of_low_byte(0), '\0');
    assert_eq!(char_of_low_byte(255), '\u{ff}');
    assert_eq!(char_of_low_byte(256 + 97), 'a');
    assert_eq!(char_of_low_byte(u32::MAX), '\u{ff}');
    for data in [0u32, 10, 127, 128, 233, 255, 256, 1000, 65536 + 66] {
        assert_eq!(char_of_low_byte(data), (data as u8) as char);
    }
}

#[test]
fn terminal_opens_at_the_end_of_the_last_line() {
    let opened = Terminal::new("mov a, 5\nout a, 42\n").unwrap();
    assert_eq!(state(&opened), after(&["mov a, 5", "out a, 42"], 9, 1, false));
    let opened = Terminal::new("one\r\n\n").unwrap();
    assert_eq!(state(&opened), after(&["one", ""], 0, 1, false));
    let opened = Terminal::new("\u{e9}").unwrap();
    assert_eq!(state(&opened), after(&["\u{e9}"], 2, 0, false));
    assert!(Terminal::new("").is_none());
}

#[test]
fn typing_adds_to_the_line_of_the_cursor() {
    let mut t = terminal(&["ab", "cd"], 2, 0, false);
    assert_eq!(t.try_press(Stroke::Type('x')), Some(Command::Nothing));
    assert_eq!(state(&t), after(&["abx", "cd"], 3, 0, false));
    // the character goes to the end of the line wherever the cursor stands
    let mut t = terminal(&["ab", "cd"], 0, 1, false);
    assert_eq!(t.try_press(Stroke::Type('5')), Some(Command::Nothing));
    assert_eq!(state(&t), after(&["ab", "cd5"], 1, 1, false));
    assert_eq!(t.press(Stroke::Type(' ')), Command::Nothing);
    assert_eq!(state(&t), after(&["ab", "cd5 "], 2, 1, false));
}

#[test]
fn typing_with_shift_gives_the_shifted_character() {
    let mut t = terminal(&["top"], 3, 0, false);
    assert_eq!(t.try_press(Stroke::Shift), Some(Command::Nothing));
    assert_eq!(state(&t), after(&["top"], 3, 0, true));
    assert_eq!(t.try_press(Stroke::Type(';')), Some(Command::Nothing));
    assert_eq!(t.try_press(Stroke::Type('a')), Some(Command::Nothing));
    assert_eq!(t.try_press(Stroke::Type('1')), Some(Command::Nothing));
    assert_eq!(state(&t), after(&["top:A!"], 6, 0, true));
    t.release(Stroke::Type('a'));
    assert!(t.shift);
    t.release(Stroke::Shift);
    assert_eq!(state(&t), after(&["top:A!"], 6, 0, false));
    assert_eq!(t.try_press(Stroke::Type('a')), Some(Command::Nothing));
    assert_eq!(state(&t), after(&["top:A!a"], 7, 0, false));
}

#[test]
fn tilde_stands_for_no_character() {
    let mut t = terminal(&["ab"], 2, 0, false);
    assert_eq!(t.try_press(Stroke::Type('~')), Some(Command::Nothing));
    assert_eq!(state(&t), after(&["ab"], 2, 0, false));
    // even where no line is under the cursor
    let mut t = terminal(&["ab"], 2, 7, true);
    assert_eq!(t.try_press(Stroke::Type('~')), Some(Command::Nothing));
    assert_eq!(state(&t), after(&["ab"], 2, 7, true));
}

#[test]
fn typing_needs_a_line_under_the_cursor() {
    let mut t = terminal(&["ab"], 0, 1, false);
    assert!(!t.can_press(Stroke::Type('x')));
    assert_eq!(t.try_press(Stroke::Type('x')), None);
    assert_eq!(state(&t), after(&["ab"], 0, 1, false));
    let mut t = terminal(&[], 0, 0, false);
    assert_eq!(t.try_press(Stroke::Type('x')), None);
    let mut t = terminal(&["ab"], usize::MAX, 0, false);
    assert_eq!(t.try_press(Stroke::Type('x')), None);
    assert_eq!(state(&t), after(&["ab"], usize::MAX, 0, false));
}

#[test]
fn backspace_at_the_end_takes_the_last_character() {
    let mut t = terminal(&["abc", "de"], 3, 0, false);
    assert_eq!(t.try_press(Stroke::Backspace), Some(Command::Nothing));
    assert_eq!(state(&t), after(&["ab", "de"], 2, 0, false));
    // a character of two bytes goes whole, and the cursor goes one column
    let mut t = terminal(&["a\u{e9}"], 3, 0, false);
    assert_eq!(t.try_press(Stroke::Backspace), Some(Command::Nothing));
    assert_eq!(state(&t), after(&["a"], 2, 0, false));
}

#[test]
fn backspace_inside_the_line_only_moves_the_cursor() {
    let mut t = terminal(&["abc"], 2, 0, false);
    assert_eq!(t.try_press(Stroke::Backspace), Some(Command::Nothing));
    assert_eq!(state(&t), after(&["abc"], 1, 0, false));
    assert_eq!(t.try_press(Stroke::Backspace), Some(Command::Nothing));
    assert_eq!(state(&t), after(&["abc"], 0, 0, false));
    assert_eq!(t.try_press(Stroke::Backspace), None);
    assert_eq!(state(&t), after(&["abc"], 0, 0, false));
    let mut t = terminal(&["abc"], 9, 0, false);
    assert_eq!(t.try_press(Stroke::Backspace), Some(Command::Nothing));
    assert_eq!(state(&t), after(&["abc"], 8, 0, false));
}

#[test]
fn backspace_on_an_empty_line_takes_the_line() {
    let mut t = terminal(&["abc", "", "de"], 0, 1, false);
    assert_eq!(t.try_press(Stroke::Backspace), Some(Command::Nothing));
    assert_eq!(state(&t), after(&["abc", "de"], 3, 0, false));
    let mut t = terminal(&["", "de"], 0, 0, false);
    assert_eq!(t.try_press(Stroke::Backspace), None);
    assert_eq!(state(&t), after(&["", "de"], 0, 0, false));
    let mut t = terminal(&[""], 5, 0, false);
    assert_eq!(t.try_press(Stroke::Backspace), Some(Command::Nothing));
    assert_eq!(state(&t), after(&[""], 5, 0, false));
    let mut t = terminal(&[], 5, 3, false);
    assert_eq!(t.try_press(Stroke::Backspace), Some(Command::Nothing));
    assert_eq!(state(&t), after(&[], 5, 3, false));
    let mut t = terminal(&["ab"], 0, 1, false);
    assert_eq!(t.try_press(Stroke::Backspace), None);
}

#[test]
fn return_opens_a_line_below() {
    let mut t = terminal(&["ab", "cd"], 1, 0, false);
    assert_eq!(t.try_press(Stroke::Return), Some(Command::Nothing));
    assert_eq!(state(&t), after(&["ab", "", "cd"], 0, 1, false));
    let mut t = terminal(&["ab", "cd"], 2, 1, false);
    assert_eq!(t.try_press(Stroke::Return), Some(Command::Nothing));
    assert_eq!(state(&t), after(&["ab", "cd", ""], 0, 2, false));
    let mut t = terminal(&["ab", "cd"], 2, 2, false);
    assert_eq!(t.try_press(Stroke::Return), None);
    assert_eq!(state(&t), after(&["ab", "cd"], 2, 2, false));
}

#[test]
fn return_with_shift_asks_to_compile() {
    let mut t = terminal(&["ab", "cd"], 1, 5, true);
    assert_eq!(t.try_press(Stroke::Return), Some(Command::Compile));
    assert_eq!(state(&t), after(&["ab", "cd"], 1, 5, true));
}

#[test]
fn escape_asks_to_leave() {
    let mut t = terminal(&["ab"], 1, 0, false);
    assert_eq!(t.try_press(Stroke::Escape), Some(Command::Leave));
    assert_eq!(state(&t), after(&["ab"], 1, 0, false));
}

#[test]
fn arrows_move_the_cursor() {
    let mut t = terminal(&["ab"], 0, 0, false);
    assert_eq!(t.try_press(Stroke::Up), Some(Command::Nothing));
    assert_eq!(t.try_press(Stroke::Left), Some(Command::Nothing));
    assert_eq!(state(&t), after(&["ab"], 0, 0, false));
    assert_eq!(t.try_press(Stroke::Down), Some(Command::Nothing));
    assert_eq!(t.try_press(Stroke::Down), Some(Command::Nothing));
    assert_eq!(t.try_press(Stroke::Right), Some(Command::Nothing));
    assert_eq!(state(&t), after(&["ab"], 1, 2, false));
    assert_eq!(t.try_press(Stroke::Up), Some(Command::Nothing));
    assert_eq!(t.try_press(Stroke::Left), Some(Command::Nothing));
    assert_eq!(state(&t), after(&["ab"], 0, 1, false));
    assert_eq!(t.try_press(Stroke::Other), Some(Command::Nothing));
    assert_eq!(state(&t), after(&["ab"], 0, 1, false));
    let mut t = terminal(&["ab"], usize::MAX, usize::MAX, false);
    assert_eq!(t.try_press(Stroke::Right), None);
    assert_eq!(t.try_press(Stroke::Down), None);
    assert_eq!(state(&t), after(&["ab"], usize::MAX, usize::MAX, false));
}

#[test]
fn machine_output_is_shown_behind_a_semicolon() {
    let mut t = terminal(&["mov a, 5"], 3, 0, true);
    t.show(Output { port: 0, data: 42 });
    t.show(Output { port: 1, data: 72 });
    t.show(Output { port: 1, data: 256 + 105 });
    t.show(Output { port: 2, data: 1 });
    t.show(Output { port: 0, data: u32::MAX });
    t.show(Output { port: 0, data: 0 });
    t.show(Output { port: 6, data: 0 });
    assert_eq!(
        state(&t),
        after(&["mov a, 5", ";42", ";H", ";i", ";4294967295", ";0"], 3, 0, true)
    );
}

#[test]
fn counts_are_read_up_to_their_limit() {
    assert_eq!(parse_count(&chars("0")), Some(0));
    assert_eq!(parse_count(&chars("+12")), Some(12));
    assert_eq!(parse_count(&chars(&usize::MAX.to_string())), Some(usize::MAX));
    assert_eq!(parse_count(&chars("340282366920938463463374607431768211456")), None);
    assert_eq!(parse_count(&chars("12x")), None);
    assert_eq!(parse_count(&chars("")), None);
    for text in ["7", "007", "18446744073709551615", "18446744073709551616", "-3", "+", "3 "] {
        assert_eq!(parse_count(&chars(text)), text.parse::<usize>().ok(), "{:?}", text);
    }
    assert_eq!(parse_number(&chars("100"), 100), Some(100));
    assert_eq!(parse_number(&chars("101"), 100), None);
    assert_eq!(parse_number(&chars("0"), 0), Some(0));
    assert_eq!(parse_number(&chars("1"), 0), None);
    assert_eq!(parse_number(&chars("18446744073709551615"), u64::MAX), Some(u64::MAX));
    assert_eq!(parse_number(&chars("18446744073709551616"), u64::MAX), None);
    assert_eq!(parse_number(&chars("184467440737095516150"), u64::MAX), None);
}

#[test]
fn grid_is_read_from_its_text() {
    let grid = parse_grid("3 2\n1 2 3\n4 5 6\n").unwrap();
    assert_eq!(grid, TileGrid { width: 3, height: 2, tiles: vec![1, 2, 3, 4, 5, 6] });
    assert_eq!(grid.tile(0, 0), 1);
    assert_eq!(grid.tile(2, 0), 3);
    assert_eq!(grid.tile(0, 1), 4);
    assert_eq!(grid.tile(2, 1), 6);
    assert_eq!(grid.get(1, 1), Some(5));
    assert_eq!(grid.get(3, 0), None);
    assert_eq!(grid.get(0, 2), None);
}

#[test]
fn grid_takes_any_white_space_and_more_than_it_needs() {
    assert_eq!(
        parse_grid(" 2\t2 these are not read\r\n7\n8 9\t10 11\n\n12"),
        Ok(TileGrid { width: 2, height: 2, tiles: vec![7, 8, 9, 10, 11, 12] })
    );
    assert_eq!(parse_grid("0 0\n"), Ok(TileGrid { width: 0, height: 0, tiles: vec![] }));
    assert_eq!(parse_grid("0 5\n1"), Ok(TileGrid { width: 0, height: 5, tiles: vec![1] }));
    assert_eq!(parse_grid("+1 1\n4294967295"), Ok(TileGrid { width: 1, height: 1, tiles: vec![u32::MAX] }));
}

#[test]
fn text_that_is_no_grid_is_refused() {
    assert_eq!(parse_grid(""), Err(GridError::NoSize));
    assert_eq!(parse_grid("\n1 1\n0"), Err(GridError::NoSize));
    assert_eq!(parse_grid("3\n1 2 3"), Err(GridError::NoSize));
    assert_eq!(parse_grid("x 2\n1 2"), Err(GridError::BadNumber));
    assert_eq!(parse_grid("2 -2\n1 2"), Err(GridError::BadNumber));
    assert_eq!(parse_grid("2 y"), Err(GridError::BadNumber));
    assert_eq!(parse_grid("1 1"), Err(GridError::NoTiles));
    assert_eq!(parse_grid("1 1\n"), Err(GridError::TooFewTiles));
    assert_eq!(parse_grid("2 2\n1 2 3"), Err(GridError::TooFewTiles));
    assert_eq!(parse_grid("2 2\n1 2 3 x"), Err(GridError::BadNumber));
    assert_eq!(parse_grid("2 2\n1 2 3 4294967296"), Err(GridError::BadNumber));
    assert_eq!(
        parse_grid("18446744073709551615 18446744073709551615\n1"),
        Err(GridError::TooFewTiles)
    );
}

#[test]
fn values_are_read_or_none() {
    let tokens = |words: &[&str]| -> Vec<Vec<char>> { words.iter().map(|w| chars(w)).collect() };
    assert_eq!(parse_values(&tokens(&[])), Some(vec![]));
    assert_eq!(parse_values(&tokens(&["1", "+2", "003"])), Some(vec![1, 2, 3]));
    assert_eq!(parse_values(&tokens(&["1", "two", "3"])), None);
    assert_eq!(parse_values(&tokens(&["1", "2", "-3"])), None);
}

#[test]
fn ports_drive_the_devices_of_the_ship() {
    let out = |port, data| Output { port, data };
    for powered in [false, true] {
        for turret in [false, true] {
            assert_eq!(order_of(out(2, 1), powered, turret), Order::EngineOn);
            assert_eq!(order_of(out(2, 0), powered, turret), Order::EngineOff);
            let obeys = powered && turret;
            assert_eq!(
                order_of(out(3, 15), powered, turret),
                if obeys { Order::TurnLeft(15) } else { Order::Nothing }
            );
            assert_eq!(
                order_of(out(4, 0), powered, turret),
                if obeys { Order::TurnRight(0) } else { Order::Nothing }
            );
            assert_eq!(
                order_of(out(5, 9), powered, turret),
                if powered { Order::TurretOn } else { Order::TurretOff }
            );
            assert_eq!(order_of(out(5, 0), powered, turret), Order::TurretOff);
            assert_eq!(
                order_of(out(6, 1), powered, turret),
                if powered { Order::DoorClose } else { Order::Nothing }
            );
            assert_eq!(
                order_of(out(6, 0), powered, turret),
                if powered { Order::DoorOpen } else { Order::Nothing }
            );
            for port in [0, 1, 7, 8, u32::MAX] {
                assert_eq!(order_of(out(port, 1), powered, turret), Order::Nothing);
            }
        }
    }
}

#[test]
fn held_keys_steer() {
    let mut inputs = Inputs::new();
    assert_eq!(inputs.steer(), Steering { across: 0, along: 0, terminal: false, quit: false });
    inputs.update(Key::A, KeyState::Pressed);
    inputs.update(Key::W, KeyState::Pressed);
    assert_eq!(inputs.steer(), Steering { across: -1, along: 1, terminal: false, quit: false });
    inputs.update(Key::D, KeyState::Pressed);
    inputs.update(Key::Return, KeyState::Pressed);
    assert_eq!(inputs.steer(), Steering { across: 0, along: 1, terminal: true, quit: false });
    inputs.update(Key::A, KeyState::Released);
    inputs.update(Key::W, KeyState::Released);
    inputs.update(Key::S, KeyState::Pressed);
    inputs.update(Key::X, KeyState::Pressed);
    inputs.update(Key::Q, KeyState::Pressed);
    inputs.update(Key::Escape, KeyState::Pressed);
    assert_eq!(inputs.steer(), Steering { across: 1, along: -1, terminal: true, quit: true });
}

#[test]
fn some_tiles_bar_the_way() {
    for tile in 0..40u32 {
        let expected = match tile {
            5 | 7 | 21 | 23 => Some(Wall::Whole),
            6 => Some(Wall::LeftPart),
            13 => Some(Wall::LowerPart),
            15 => Some(Wall::UpperPart),
            22 => Some(Wall::RightPart),
            _ => None,
        };
        assert_eq!(wall_of(tile), expected, "{}", tile);
    }
    assert_eq!(wall_of(u32::MAX), None);
}
