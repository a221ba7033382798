use papers::document::render_document;
use papers::markup::{render_article, MarkupError};
use papers::Article;

const TAIL: &str = "</body></html>";

fn head(title: &str) -> String {
    format!(
        "<!DOCTYPE html><html><head><title>{}</title><meta http-equiv=\"content-type\" content=\"text/html; charset=UTF-8\"></head><body>",
        title
    )
}

#[test]
fn document_of_no_articles() {
    assert_eq!(
        render_document(&vec![], "Politiken - 2015-03-07"),
        Ok(format!("{}{}", head("Politiken - 2015-03-07"), TAIL))
    );
}

#[test]
fn document_in_full() {
    let articles = vec![
        Article::new("One", "A", "first", "x\n<div class='h3'>H</div>y"),
        Article::new("", "", "", "filler"),
    ];
    let expected = format!(
        "{}{}{}{}",
        head("T"),
        "<article><header><div><a name=\"One_0\"><h1>One</h1></a><h2>first</h2></div></header><address>A</address><section>x</section><section><h3>H</h3>y</section></article>",
        "<article><header><div><a name=\"_1\"><h1></h1></a><h2></h2></div></header><address></address><section>filler</section></article>",
        TAIL
    );
    assert_eq!(render_document(&articles, "T"), Ok(expected));
}

#[test]
fn document_is_the_fragments_in_order() {
    let articles = vec![
        Article::new("b", "1", "2", "3"),
        Article::new("a", "4", "5", "6"),
        Article::new("b", "7", "8", "9"),
    ];
    let mut expected = head("x");
    for (i, a) in articles.iter().enumerate() {
        expected.push_str(&render_article(a, i).unwrap());
    }
    expected.push_str(TAIL);
    assert_eq!(render_document(&articles, "x"), Ok(expected));
}

#[test]
fn one_unclosed_heading_fails_the_document() {
    let articles = vec![
        Article::new("ok", "", "", "fine"),
        Article::new("bad", "", "", "a\nb\n<div class='h3'>never closed"),
        Article::new("worse", "", "", "<div class='h3'>neither"),
    ];
    assert_eq!(render_document(&articles, "x"), Err(MarkupError { article: 1, line: 2 }));
}

#[test]
fn document_title_is_not_escaped() {
    let doc = render_document(&vec![], "A & B").unwrap();
    assert!(doc.contains("<title>A & B</title>"));
}
