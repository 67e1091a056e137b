use mat::parse::parse_markdown;
use mat::render::{AlertKind, HeadingLevel, MdEvent};
use mat::table::Align;

#[test]
fn headings_and_text_become_events() {
    let evs = parse_markdown("## Hi there\n");
    assert_eq!(evs.len(), 3);
    assert!(matches!(evs[0], MdEvent::StartHeading));
    assert!(matches!(&evs[1], MdEvent::Text(t) if t == "Hi there"));
    assert!(matches!(evs[2], MdEvent::EndHeading(HeadingLevel::H2)));
}

#[test]
fn block_starts_carry_their_data() {
    let evs = parse_markdown("| a | b | c |\n|:--|--:|:-:|\n| 1 | 2 | 3 |\n");
    match &evs[0] {
        MdEvent::StartTable(al) => assert_eq!(al, &vec![Align::Left, Align::Right, Align::Center]),
        _ => panic!("expected a table"),
    }
    let evs = parse_markdown("> [!TIP]\n> x\n");
    assert!(matches!(evs[0], MdEvent::StartBlockQuote(Some(AlertKind::Tip))));
    let evs = parse_markdown("> plain\n");
    assert!(matches!(evs[0], MdEvent::StartBlockQuote(None)));
    let evs = parse_markdown("```rs\nfn f() {}\n```\n");
    assert!(matches!(&evs[0], MdEvent::StartCodeBlock(l) if l == "rs"));
    assert!(matches!(&evs[1], MdEvent::Text(t) if t == "fn f() {}\n"));
    assert!(matches!(evs[2], MdEvent::EndCodeBlock));
    let evs = parse_markdown("7. a\n");
    assert!(matches!(evs[0], MdEvent::StartList(Some(7))));
}

#[test]
fn inline_events() {
    let evs = parse_markdown("[x](https://a.b) `c` *e* **s** ~~d~~\\\nz\n");
    assert!(matches!(evs[0], MdEvent::StartParagraph));
    assert!(matches!(&evs[1], MdEvent::StartLink(u) if u == "https://a.b"));
    assert!(evs.iter().any(|e| matches!(e, MdEvent::Code(c) if c == "c")));
    assert!(evs.iter().any(|e| matches!(e, MdEvent::StartEmphasis)));
    assert!(evs.iter().any(|e| matches!(e, MdEvent::EndStrong)));
    assert!(evs.iter().any(|e| matches!(e, MdEvent::StartStrikethrough)));
    assert!(evs.iter().any(|e| matches!(e, MdEvent::HardBreak)));
    let evs = parse_markdown("- [x] done\n");
    assert!(evs.iter().any(|e| matches!(e, MdEvent::TaskListMarker(true))));
    let evs = parse_markdown("a\n\n---\n\n<div>h</div>\n");
    assert!(evs.iter().any(|e| matches!(e, MdEvent::Rule)));
    assert!(evs.iter().any(|e| matches!(e, MdEvent::Other)));
}
