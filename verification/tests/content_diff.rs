use bbn::content_diff::{
    diff_text_lines, format_diff_line, two_line_context, two_line_diff, DiffKind, DiffLine,
};

fn line(kind: DiffKind, text: &str) -> DiffLine {
    DiffLine {
        kind,
        text: text.to_string(),
    }
}

#[test]
fn line_diff_of_texts() {
    assert_eq!(
        diff_text_lines("a\nb\nc", "a\nx\nc"),
        vec![" a", "-b", "+x", " c"]
    );
    assert_eq!(diff_text_lines("a\n", "a"), vec![" a", "-"]);
    assert_eq!(format_diff_line(&line(DiffKind::Left, "b")), "-b");
    assert_eq!(format_diff_line(&line(DiffKind::Both, "a")), " a");
    assert_eq!(format_diff_line(&line(DiffKind::Right, "x")), "+x");
}

#[test]
fn context_of_changes() {
    let c = |v: &[u8]| two_line_context(&v.iter().map(|b| *b == 1).collect());
    let t = |v: &[u8]| v.iter().map(|b| *b == 1).collect::<Vec<bool>>();
    assert_eq!(c(&[0, 0, 0, 1, 0, 0, 0, 0]), t(&[0, 0, 1, 1, 1, 1, 0, 0]));
    assert_eq!(c(&[1, 0, 0, 0, 1]), t(&[1, 1, 1, 1, 1]));
    assert_eq!(c(&[0, 0, 0]), t(&[0, 0, 0]));
    assert_eq!(c(&[]), t(&[]));
    assert_eq!(c(&[0, 1]), t(&[1, 1]));
}

#[test]
fn short_diff() {
    let left = "1\n2\n3\n4\n5\n6\n7\n8";
    let right = "1\n2\n3\n4x\n5\n6\n7\n8";
    let texts: Vec<String> = two_line_diff(left, right)
        .iter()
        .map(format_diff_line)
        .collect();
    assert_eq!(texts, vec![" 3", "-4", "+4x", " 5", " 6"]);
}
