use red_cod::interpreter::{code_to_char, hex_digit};
use red_cod::motion::get_wrapped_coord;
use red_cod::{Codebox, Direction, Instruction, Pos};

fn at(x: usize, y: usize) -> Pos {
    Pos { x, y }
}

#[test]
fn loads_lines_and_spaces() {
    let cb = Codebox::new("ab c\nd\n\nλ!");
    assert_eq!(cb.width(), 4);
    assert_eq!(cb.height(), 4);
    assert_eq!(cb.get_instruction(&at(0, 0)), Instruction::Op('a'));
    assert_eq!(cb.get_instruction(&at(1, 0)), Instruction::Op('b'));
    assert_eq!(cb.get_instruction(&at(2, 0)), Instruction::Noop);
    assert_eq!(cb.get_instruction(&at(3, 0)), Instruction::Op('c'));
    assert_eq!(cb.get_instruction(&at(0, 1)), Instruction::Op('d'));
    assert_eq!(cb.get_instruction(&at(1, 1)), Instruction::Noop);
    assert_eq!(cb.get_instruction(&at(0, 2)), Instruction::Noop);
    assert_eq!(cb.get_instruction(&at(0, 3)), Instruction::Op('λ'));
    assert_eq!(cb.get_instruction(&at(1, 3)), Instruction::Op('!'));
    assert_eq!(cb.get_instruction(&at(9, 9)), Instruction::Noop);
}

#[test]
fn width_counts_characters() {
    let cb = Codebox::new("λλλ\nab");
    assert_eq!(cb.width(), 3);
}

#[test]
fn crlf_and_final_newline() {
    let cb = Codebox::new("ab\r\ncd\n");
    assert_eq!(cb.height(), 2);
    assert_eq!(cb.width(), 2);
    assert_eq!(cb.get_instruction(&at(1, 0)), Instruction::Op('b'));
    assert_eq!(cb.get_instruction(&at(2, 0)), Instruction::Noop);
    assert_eq!(cb.get_instruction(&at(1, 1)), Instruction::Op('d'));
}

#[test]
fn empty_source() {
    let cb = Codebox::new("");
    assert_eq!(cb.width(), 0);
    assert_eq!(cb.height(), 0);
    assert_eq!(cb.get_instruction(&at(0, 0)), Instruction::Noop);
}

#[test]
fn set_then_get() {
    let mut cb = Codebox::new("12\n34");
    cb.set_instruction(at(0, 1), 'x');
    cb.set_instruction(at(100, 7), 'y');
    cb.set_instruction(at(1, 0), ' ');
    assert_eq!(cb.get_instruction(&at(0, 1)), Instruction::Op('x'));
    assert_eq!(cb.get_instruction(&at(100, 7)), Instruction::Op('y'));
    assert_eq!(cb.get_instruction(&at(1, 0)), Instruction::Op(' '));
    assert_eq!(cb.get_instruction(&at(7, 100)), Instruction::Noop);
    assert_eq!(cb.width(), 2);
    assert_eq!(cb.height(), 2);
}

#[test]
fn wrapping_coordinates() {
    assert_eq!(get_wrapped_coord(0, -1, 5), 4);
    assert_eq!(get_wrapped_coord(4, 1, 5), 0);
    assert_eq!(get_wrapped_coord(2, 1, 5), 3);
    assert_eq!(get_wrapped_coord(2, -1, 5), 1);
    assert_eq!(get_wrapped_coord(9, 1, 5), 0);
    assert_eq!(get_wrapped_coord(9, -1, 5), 0);
    assert_eq!(get_wrapped_coord(5, -1, 5), 4);
}

#[test]
fn east_w_times_and_south_h_times_come_back() {
    let (w, h) = (5usize, 3usize);
    let start = at(2, 1);
    let mut p = start;
    for _ in 0..w {
        p = red_cod::motion::step_pos(p, Direction::East, w, h);
    }
    assert_eq!(p, start);
    for _ in 0..h {
        p = red_cod::motion::step_pos(p, Direction::South, w, h);
    }
    assert_eq!(p, start);
}

#[test]
fn direction_laws() {
    for d in [Direction::North, Direction::East, Direction::South, Direction::West] {
        assert_eq!(d.reverse().reverse(), d);
        assert_eq!(d.turn('#').turn('#'), d);
        assert_eq!(d.turn('/').turn('/').turn('/').turn('/'), d);
        assert_eq!(d.turn('\\').turn('\\').turn('\\').turn('\\'), d);
    }
    assert_eq!(Direction::North.turn('/'), Direction::East);
    assert_eq!(Direction::South.turn('/'), Direction::West);
    assert_eq!(Direction::North.turn('\\'), Direction::West);
    assert_eq!(Direction::East.turn('\\'), Direction::South);
    assert_eq!(Direction::East.turn('|'), Direction::West);
    assert_eq!(Direction::North.turn('|'), Direction::North);
    assert_eq!(Direction::North.turn('_'), Direction::South);
    assert_eq!(Direction::South.turn('_'), Direction::North);
    assert_eq!(Direction::East.turn('_'), Direction::East);
    assert_eq!(Direction::West.turn('^'), Direction::North);
}

#[test]
fn draws_pick_each_direction() {
    assert_eq!(Direction::from_draw(0), Direction::North);
    assert_eq!(Direction::from_draw(5), Direction::East);
    assert_eq!(Direction::from_draw(10), Direction::South);
    assert_eq!(Direction::from_draw(u32::MAX), Direction::West);
}

#[test]
fn code_points_to_characters() {
    assert_eq!(code_to_char(65), Some('A'));
    assert_eq!(code_to_char(0x3bb), Some('λ'));
    assert_eq!(code_to_char(0xD800), None);
    assert_eq!(code_to_char(0x11_0000), None);
}

#[test]
fn hex_digits() {
    assert_eq!(hex_digit('0'), Some(0));
    assert_eq!(hex_digit('9'), Some(9));
    assert_eq!(hex_digit('a'), Some(10));
    assert_eq!(hex_digit('f'), Some(15));
    assert_eq!(hex_digit('g'), None);
    assert_eq!(hex_digit('A'), None);
}
