use game::commands::{added_sensors, start_commands, Message};
use game::position_text::{is_whitespace_char, split_position_fields};
use game::sensor_layout::{horizontal_fov_scale, isqrt_u16, sensor_layout, vertical_fov_scale};

#[test]
fn isqrt_rounds_down() {
    assert_eq!(isqrt_u16(0), 0);
    assert_eq!(isqrt_u16(1), 1);
    assert_eq!(isqrt_u16(3), 1);
    assert_eq!(isqrt_u16(4), 2);
    assert_eq!(isqrt_u16(24), 4);
    assert_eq!(isqrt_u16(25), 5);
    assert_eq!(isqrt_u16(65535), 255);
}

#[test]
fn isqrt_agrees_with_its_definition_everywhere() {
    for n in 0..=u16::MAX {
        let r = isqrt_u16(n) as u32;
        assert!(r * r <= n as u32);
        assert!((r + 1) * (r + 1) > n as u32);
    }
}

#[test]
fn fov_scales_of_small_sensors() {
    assert_eq!(horizontal_fov_scale(1, 1), 1);
    assert_eq!(vertical_fov_scale(1, 1), 1);
    assert_eq!(horizontal_fov_scale(2, 2), 1);
    assert_eq!(vertical_fov_scale(2, 2), 1);
    assert_eq!(horizontal_fov_scale(3, 3), 0);
    assert_eq!(vertical_fov_scale(3, 3), 0);
    assert_eq!(horizontal_fov_scale(3, 4), 0);
    assert_eq!(vertical_fov_scale(3, 4), 0);
}

#[test]
fn fov_scale_is_one_along_a_side_when_the_other_is_short() {
    assert_eq!(horizontal_fov_scale(1, 100), 1);
    assert_eq!(vertical_fov_scale(1, 100), 0);
    assert_eq!(horizontal_fov_scale(0, 5), 1);
    assert_eq!(vertical_fov_scale(0, 5), 0);
    assert_eq!(horizontal_fov_scale(5, 0), 0);
    assert_eq!(vertical_fov_scale(5, 0), 1);
    assert_eq!(horizontal_fov_scale(14, 100), 1);
    assert_eq!(horizontal_fov_scale(15, 100), 0);
}

#[test]
fn fov_scales_are_transposes_of_each_other() {
    for w in 0u16..=40 {
        for h in 0u16..=40 {
            if w == 0 && h == 0 {
                continue;
            }
            assert_eq!(horizontal_fov_scale(w, h), vertical_fov_scale(h, w));
            assert!(horizontal_fov_scale(w, h) <= 1);
        }
    }
}

#[test]
fn layout_places_a_square_grid_row_by_row() {
    let layout = sensor_layout(3, 2);
    assert_eq!(layout.pixels, vec![(0, 0), (0, 1), (1, 0), (1, 1)]);
    assert_eq!(layout.intervals, Some((2, 1)));
    assert_eq!(layout.horizontal_scale, 0);
    assert_eq!(layout.vertical_scale, 1);
}

#[test]
fn layout_of_a_one_pixel_sensor() {
    let layout = sensor_layout(1, 1);
    assert_eq!(layout.pixels, vec![(0, 0)]);
    assert_eq!(layout.intervals, Some((0, 0)));
    assert_eq!(layout.horizontal_scale, 1);
    assert_eq!(layout.vertical_scale, 1);
}

#[test]
fn layout_without_rows_places_nothing() {
    let layout = sensor_layout(4, 0);
    assert!(layout.pixels.is_empty());
    assert_eq!(layout.intervals, None);
    assert_eq!(layout.horizontal_scale, 0);
    assert_eq!(layout.vertical_scale, 1);
}

#[test]
fn layout_covers_every_cell_once() {
    let layout = sensor_layout(2, 9);
    assert_eq!(layout.pixels.len(), 81);
    for column in 0..9u16 {
        for row in 0..9u16 {
            assert_eq!(layout.pixels[(column * 9 + row) as usize], (column, row));
        }
    }
}

#[test]
fn split_plain_position() {
    assert_eq!(split_position_fields("100.0,200.0"), Some(("100.0", "200.0")));
}

#[test]
fn split_trims_white_space_around_fields() {
    assert_eq!(split_position_fields("  1.5 ,\t-2 \n"), Some(("1.5", "-2")));
    assert_eq!(split_position_fields("\u{3000}a,b\u{85}"), Some(("a", "b")));
    assert_eq!(split_position_fields("a , b c"), Some(("a", "b c")));
}

#[test]
fn split_keeps_empty_fields() {
    assert_eq!(split_position_fields(","), Some(("", "")));
    assert_eq!(split_position_fields(" ,x"), Some(("", "x")));
}

#[test]
fn split_refuses_other_comma_counts() {
    assert_eq!(split_position_fields("12"), None);
    assert_eq!(split_position_fields(""), None);
    assert_eq!(split_position_fields("1,2,3"), None);
    assert_eq!(split_position_fields(",,"), None);
}

#[test]
fn split_agrees_with_std_split_and_trim() {
    let samples = [
        "1,2", " 3 , 4 ", "x", "a,b,c", "\u{2028}q\u{a0},\u{1680}r", ",", "", "  ,  ", "é, ü",
    ];
    for s in samples {
        let parts: Vec<&str> = s.split(',').collect();
        let expected = if parts.len() == 2 { Some((parts[0].trim(), parts[1].trim())) } else { None };
        assert_eq!(split_position_fields(s), expected);
    }
}

#[test]
fn whitespace_matches_std() {
    for v in 0u32..=0x3100 {
        if let Some(c) = char::from_u32(v) {
            assert_eq!(is_whitespace_char(c), c.is_whitespace());
        }
    }
    assert!(!is_whitespace_char('\u{10ffff}'));
}

#[test]
fn start_commands_request_a_sensor_at_the_node() {
    let commands = start_commands(Some(7), 0);
    assert_eq!(commands.len(), 2);
    assert!(matches!(&commands[0], Message::AddSensors { sensors } if sensors == &vec![7]));
    assert!(matches!(commands[1], Message::RaycastStateChange { on: true }));
    assert_eq!(added_sensors(&commands[0]), Some(&vec![7]));
    assert_eq!(added_sensors(&commands[1]), None);
}

#[test]
fn start_commands_fall_back_to_the_origin() {
    let commands = start_commands(None, (0, 0, 0));
    assert_eq!(added_sensors(&commands[0]), Some(&vec![(0, 0, 0)]));
}

#[test]
fn only_add_sensor_messages_carry_sensors() {
    let spawn: Message<u8> = Message::SpawnField {};
    assert_eq!(added_sensors(&spawn), None);
    let off: Message<u8> = Message::RaycastStateChange { on: false };
    assert_eq!(added_sensors(&off), None);
    let add = Message::AddSensors { sensors: vec![1u8, 2, 3] };
    assert_eq!(added_sensors(&add), Some(&vec![1, 2, 3]));
}
