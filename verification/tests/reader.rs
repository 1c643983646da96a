use lora_mesh::{Intake, LinkReader};

#[test]
fn a_line_in_one_piece_is_handed_on() {
    let mut reader = LinkReader::new();
    assert_eq!(
        reader.accept(b"+RCV=0,2,hi\r\n"),
        Intake::Line(b"+RCV=0,2,hi\r\n".to_vec())
    );
}

#[test]
fn pieces_are_collected_until_the_line_end() {
    let mut reader = LinkReader::new();
    assert_eq!(reader.accept(b"+RC"), Intake::Pending);
    assert_eq!(reader.accept(b"V=0,2,h"), Intake::Pending);
    assert_eq!(reader.accept(b""), Intake::Pending);
    assert_eq!(reader.accept(b"i\r"), Intake::Pending);
    assert_eq!(reader.accept(b"\n"), Intake::Line(b"+RCV=0,2,hi\r\n".to_vec()));
}

#[test]
fn what_precedes_the_announcement_is_left_out() {
    let mut reader = LinkReader::new();
    assert_eq!(
        reader.accept(b"+OK\r\nxx+RCV=0,2,hi\r\n"),
        Intake::Line(b"+RCV=0,2,hi\r\n".to_vec())
    );
}

#[test]
fn a_line_without_announcement_is_noise() {
    let mut reader = LinkReader::new();
    assert_eq!(reader.accept(b"+OK\r\n"), Intake::Noise);
    assert_eq!(reader.accept(b"AT+SEND=0,2,hi\r\n"), Intake::Noise);
    assert_eq!(reader.accept(b"\r\n"), Intake::Noise);
}

#[test]
fn the_reader_starts_afresh_after_each_line() {
    let mut reader = LinkReader::new();
    assert_eq!(reader.accept(b"+OK\r\n"), Intake::Noise);
    assert_eq!(reader.accept(b"+RCV=0,1,a\r\n"), Intake::Line(b"+RCV=0,1,a\r\n".to_vec()));
    assert_eq!(reader.accept(b"+RCV=0,1,b\r\n"), Intake::Line(b"+RCV=0,1,b\r\n".to_vec()));
}

#[test]
fn an_empty_read_changes_nothing() {
    let mut reader = LinkReader::new();
    assert_eq!(reader.accept(b""), Intake::Pending);
    assert_eq!(reader.accept(b"+RCV=0,1,"), Intake::Pending);
    assert_eq!(reader.accept(b""), Intake::Pending);
    assert_eq!(reader.accept(b"a\r\n"), Intake::Line(b"+RCV=0,1,a\r\n".to_vec()));
}

#[test]
fn reset_forgets_what_was_collected() {
    let mut reader = LinkReader::new();
    assert_eq!(reader.accept(b"+RCV=0,1,"), Intake::Pending);
    reader.reset();
    assert_eq!(reader.accept(b"a\r\n"), Intake::Noise);
}

#[test]
fn two_lines_in_one_piece_are_handed_on_together() {
    let mut reader = LinkReader::new();
    assert_eq!(
        reader.accept(b"+RCV=0,1,a\r\n+RCV=0,1,b\r\n"),
        Intake::Line(b"+RCV=0,1,a\r\n+RCV=0,1,b\r\n".to_vec())
    );
}
