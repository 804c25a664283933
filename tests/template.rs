use archive_index::calendar::Timestamp;
use archive_index::mask::Mask;
use archive_index::parser::Instructions;
use archive_index::template::parse;
use archive_index::thread::Thread;

fn thread(topic: &str, first: Timestamp, last: Timestamp) -> Thread {
    Thread {
        topic: topic.to_string(),
        replies: 2,
        link: format!("[[Talk:X#{}]]", topic),
        first,
        last,
    }
}

fn instructions() -> Instructions {
    Instructions {
        origin: "Talk:X".to_string(),
        target: "Talk:X/Archive index".to_string(),
        masks: vec![
            Mask::Numerical { mask: "Talk:X/Archive <#>".to_string(), leading_zeros: 0 },
            Mask::SinglePage { title: "Talk:X".to_string() },
        ],
        template: "User:T".to_string(),
    }
}

const DOC: &str = "ignored\n<!-- LEAD -->\nLead\n  <!-- HEADER -->  \nHead\n<!-- ROW -->\n  R %%topic%%  \n<!-- FOOTER -->\nFoot\n<!-- TAIL -->\nTail 1\nTail 2\n<!-- END -->\nafter end";

#[test]
fn template_without_alt_row_uses_row_everywhere() {
    let t = parse(DOC);
    assert_eq!(t.lead, "Lead");
    assert_eq!(t.header, "Head");
    assert_eq!(t.row, "  R %%topic%%  ");
    assert!(t.altrow.is_none());
    assert_eq!(t.tail, "Tail 1\nTail 2");
    let a = Timestamp::new(2021, 3, 4, 12, 34).unwrap();
    let threads = vec![thread("A", a, a), thread("B", a, a), thread("C", a, a)];
    let text = t.build(threads, &instructions());
    let expected = "<!-- HBC Archive Indexerbot can blank this -->\nLead\nReport generated based on a request from [[Talk:X]]. It matches the following masks: Talk:X/Archive <#>, Talk:X.<br>\n{{last edited by}}\nHead\n  R A  \n  R B  \n  R C  \nFoot\nTail 1\nTail 2";
    assert_eq!(text, expected);
}

#[test]
fn template_alt_row_alternates() {
    let t = parse("<!-- ROW -->\nR %%topic%%\n<!-- ALT ROW -->\nS %%topic%%\r\n");
    assert_eq!(t.altrow.as_deref(), Some("S %%topic%%"));
    let a = Timestamp::new(2021, 3, 4, 12, 34).unwrap();
    let threads = vec![thread("A", a, a), thread("B", a, a), thread("C", a, a)];
    let text = t.build(threads, &instructions());
    assert!(text.contains("\nR A\nS B\nR C\n"));
}

#[test]
fn row_tokens_are_filled() {
    let t = parse("<!-- ROW -->\n%%topic%%|%%replies%%|%%link%%|%%first%%|%%firstepoch%%|%%last%%|%%lastepoch%%|%%duration%%|%%durationsecs%%|%%unknown%%");
    let a = Timestamp::new(2021, 3, 4, 12, 34).unwrap();
    let b = Timestamp::new(2021, 3, 5, 13, 35).unwrap();
    let text = t.build(vec![thread("Topic", a, b)], &instructions());
    let row = text.lines().nth(5).unwrap();
    assert_eq!(
        row,
        "Topic|2|[[Talk:X#Topic]]|12:34, 4 March 2021|1614861240|13:35, 5 March 2021|1614951300|1 day, 1:01:00|90060|%%unknown%%"
    );
}

#[test]
fn rendering_twice_gives_the_same_text() {
    let t = parse(DOC);
    let a = Timestamp::new(2021, 3, 4, 12, 34).unwrap();
    let one = t.build(vec![thread("A", a, a)], &instructions());
    let two = t.build(vec![thread("A", a, a)], &instructions());
    assert_eq!(one, two);
}

#[test]
fn empty_template_document() {
    let t = parse("");
    assert_eq!(t.lead, "");
    assert_eq!(t.row, "");
    assert!(t.altrow.is_none());
}

#[test]
fn content_lines_are_kept_verbatim() {
    let t = parse("<!-- LEAD -->\n x\r\n\ty \n <!-- ROW --> \n| a |");
    assert_eq!(t.lead, " x\n\ty ");
    assert_eq!(t.row, "| a |");
}
