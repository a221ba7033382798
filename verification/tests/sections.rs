use papers::markup::render_article;
use papers::sections::{render_sections, split_sections, SectionBlock};
use papers::Article;

fn block(heading: Option<&str>, body: &str) -> SectionBlock {
    SectionBlock { heading: heading.map(|h| h.to_string()), body: body.to_string() }
}

#[test]
fn content_without_marker_is_one_block() {
    assert_eq!(split_sections("a\nb\nc"), Ok(vec![block(None, "abc")]));
}

#[test]
fn empty_content_is_one_empty_block() {
    assert_eq!(split_sections(""), Ok(vec![block(None, "")]));
}

#[test]
fn marker_line_opens_a_block() {
    assert_eq!(
        split_sections("intro\n<div class='h3'>Foo</div>Bar\nmore\n<div class='h3'>Two</div>\nend"),
        Ok(vec![block(None, "intro"), block(Some("Foo"), "Barmore"), block(Some("Two"), "end")])
    );
}

#[test]
fn marker_on_the_first_line_leaves_the_first_block_empty() {
    assert_eq!(
        split_sections("<div class='h3'>Only</div>"),
        Ok(vec![block(None, ""), block(Some("Only"), "")])
    );
}

#[test]
fn unclosed_marker_fails_with_its_line() {
    assert_eq!(split_sections("a\n\n<div class='h3'>Foo\n</div>"), Err(2));
    assert_eq!(split_sections("<div class='h3'>"), Err(0));
}

#[test]
fn sections_in_full() {
    let blocks = vec![block(None, "intro"), block(Some("Foo"), "Bar"), block(Some(""), "")];
    assert_eq!(
        render_sections(&blocks),
        "<section>intro</section><section><h3>Foo</h3>Bar</section><section><h3></h3></section>"
    );
    assert_eq!(render_sections(&vec![]), "");
}

#[test]
fn sections_are_the_body_of_the_fragment() {
    for content in ["", "plain", "a\r\nb", "x\n<div class='h3'>H</div>y\nz", "<div class='h3'>A</div>\n<div class='h3'>B</div>b"] {
        let article = Article::new("t", "by", "bl", content);
        let fragment = render_article(&article, 0).unwrap();
        let sections = render_sections(&split_sections(content).unwrap());
        assert_eq!(
            fragment,
            format!(
                "<article><header><div><a name=\"t_0\"><h1>t</h1></a><h2>bl</h2></div></header><address>by</address>{}</article>",
                sections
            )
        );
    }
}
