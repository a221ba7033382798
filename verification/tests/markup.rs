use papers::markup::{render_article, render_line, MarkupError};
use papers::Article;

#[test]
fn plain_line_is_copied() {
    assert_eq!(render_line("Just <b>some</b> text & more"), Some("Just <b>some</b> text & more".to_string()));
    assert_eq!(render_line(""), Some(String::new()));
}

#[test]
fn heading_line_opens_a_section() {
    assert_eq!(
        render_line("<div class='h3'>Foo</div>Bar"),
        Some("</section><section><h3>Foo</h3>Bar".to_string())
    );
}

#[test]
fn heading_line_with_empty_heading_and_rest() {
    assert_eq!(
        render_line("<div class='h3'></div>"),
        Some("</section><section><h3></h3>".to_string())
    );
}

#[test]
fn heading_ends_at_the_first_closing_tag() {
    assert_eq!(
        render_line("<div class='h3'>A</div>B</div>C"),
        Some("</section><section><h3>A</h3>B</div>C".to_string())
    );
}

#[test]
fn heading_without_closing_tag_fails() {
    assert_eq!(render_line("<div class='h3'>Foo"), None);
    assert_eq!(render_line("<div class='h3'>"), None);
    assert_eq!(render_line("<div class='h3'>Foo</div"), None);
}

#[test]
fn marker_counts_only_at_the_start_and_exactly() {
    let inside = " <div class='h3'>Foo</div>";
    assert_eq!(render_line(inside), Some(inside.to_string()));
    let upper = "<DIV class='h3'>Foo</div>";
    assert_eq!(render_line(upper), Some(upper.to_string()));
    let double_quotes = "<div class=\"h3\">Foo</div>";
    assert_eq!(render_line(double_quotes), Some(double_quotes.to_string()));
    let short = "<div class='h3'";
    assert_eq!(render_line(short), Some(short.to_string()));
}

#[test]
fn heading_may_hold_any_characters() {
    assert_eq!(
        render_line("<div class='h3'>Blåbær & <i>fløde</i></div>æøå"),
        Some("</section><section><h3>Blåbær & <i>fløde</i></h3>æøå".to_string())
    );
}

fn article(content: &str) -> Article {
    Article::new("Hello World", "By Me", "Short", content)
}

const HEAD: &str = "<article><header><div><a name=\"Hello_World_2\"><h1>Hello World</h1></a><h2>Short</h2></div></header><address>By Me</address><section>";
const TAIL: &str = "</section></article>";

#[test]
fn article_fragment_in_full() {
    let a = article("line one\n<div class='h3'>Foo</div>Bar\nlast");
    let expected = format!("{}line one</section><section><h3>Foo</h3>Barlast{}", HEAD, TAIL);
    assert_eq!(render_article(&a, 2), Ok(expected));
}

#[test]
fn article_without_content() {
    assert_eq!(render_article(&article(""), 2), Ok(format!("{}{}", HEAD, TAIL)));
}

#[test]
fn article_lines_are_joined_without_line_ends() {
    assert_eq!(render_article(&article("a\nb\r\nc\n"), 2), Ok(format!("{}abc{}", HEAD, TAIL)));
    assert_eq!(render_article(&article("a\n\n\nb"), 2), Ok(format!("{}ab{}", HEAD, TAIL)));
}

#[test]
fn carriage_return_stays_unless_a_line_feed_follows() {
    assert_eq!(render_article(&article("a\rb\n"), 2), Ok(format!("{}a\rb{}", HEAD, TAIL)));
    assert_eq!(render_article(&article("a\r"), 2), Ok(format!("{}a\r{}", HEAD, TAIL)));
    assert_eq!(render_article(&article("a\r\r\nb"), 2), Ok(format!("{}a\rb{}", HEAD, TAIL)));
}

#[test]
fn marker_after_a_line_feed_opens_a_section() {
    let a = article("intro\r\n<div class='h3'>One</div>\r\ntext\n<div class='h3'>Two</div>more");
    let expected = format!(
        "{}intro</section><section><h3>One</h3>text</section><section><h3>Two</h3>more{}",
        HEAD, TAIL
    );
    assert_eq!(render_article(&a, 2), Ok(expected));
}

#[test]
fn marker_in_the_middle_of_a_line_is_text() {
    let a = article("intro <div class='h3'>One</div>");
    assert_eq!(
        render_article(&a, 2),
        Ok(format!("{}intro <div class='h3'>One</div>{}", HEAD, TAIL))
    );
}

#[test]
fn closing_tag_on_the_next_line_does_not_count() {
    let a = article("ok\nfine\n<div class='h3'>Foo\n</div>Bar");
    assert_eq!(render_article(&a, 5), Err(MarkupError { article: 5, line: 2 }));
}

#[test]
fn first_unclosed_heading_is_reported() {
    let a = article("<div class='h3'>A\n<div class='h3'>B");
    assert_eq!(render_article(&a, 0), Err(MarkupError { article: 0, line: 0 }));
}

#[test]
fn untitled_article_is_still_rendered() {
    let a = Article::new("", "", "", "body");
    assert_eq!(
        render_article(&a, 0),
        Ok("<article><header><div><a name=\"_0\"><h1></h1></a><h2></h2></div></header><address></address><section>body</section></article>".to_string())
    );
}

#[test]
fn fields_are_not_escaped() {
    let a = Article::new("A & B", "<i>x</i>", "\"q\"", "1 < 2");
    assert_eq!(
        render_article(&a, 1),
        Ok("<article><header><div><a name=\"A_&_B_1\"><h1>A & B</h1></a><h2>\"q\"</h2></div></header><address><i>x</i></address><section>1 < 2</section></article>".to_string())
    );
}

#[test]
fn line_is_taken_whole() {
    assert_eq!(render_line("a\nb"), Some("a\nb".to_string()));
    assert_eq!(
        render_line("<div class='h3'>A\n</div>B"),
        Some("</section><section><h3>A\n</h3>B".to_string())
    );
}
