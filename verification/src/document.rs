//! The document builder: every article of an edition in one HTML document.

use vstd::prelude::*;
use vstd::string::StringExecFns;
use crate::article::{Article, ArticleText, texts};
use crate::markup::{article_head, article_markup, push_article, MarkupError, Tags};
use crate::scan::occurs_at;

verus! {

/// The fragments of the articles one after the other, each under its position
/// in the edition; `Err((i, k))` when article `i` is the first whose content
/// has a heading line without closing tag, and `k` the number of that line.
pub open spec fn articles_markup(articles: Seq<ArticleText>) -> Result<Seq<char>, (int, int)>
    decreases articles.len(),
{
    if articles.len() == 0 {
        Ok(Seq::empty())
    } else {
        match articles_markup(articles.drop_last()) {
            Err(e) => Err(e),
            Ok(head) => match article_markup(articles.last(), (articles.len() - 1) as nat) {
                Ok(m) => Ok(head + m),
                Err(line) => Err((articles.len() - 1, line)),
            },
        }
    }
}

/// What stands before the articles of a content document titled `title`.
pub open spec fn document_head(title: Seq<char>) -> Seq<char> {
    "<!DOCTYPE html>"@ + "<html>"@ + "<head>"@ + "<title>"@ + title + "</title>"@
        + "<meta http-equiv=\"content-type\" content=\"text/html; charset=UTF-8\">"@ + "</head>"@
        + "<body>"@
}

/// What stands behind the articles of a content document.
pub open spec fn document_tail() -> Seq<char> {
    "</body>"@ + "</html>"@
}

/// The content document of an edition.
pub open spec fn content_document(articles: Seq<ArticleText>, title: Seq<char>) -> Result<
    Seq<char>,
    (int, int),
> {
    match articles_markup(articles) {
        Ok(body) => Ok(document_head(title) + body + document_tail()),
        Err(e) => Err(e),
    }
}

/// Once an article has failed, more articles behind it change nothing.
pub proof fn lemma_articles_error_persists(done: Seq<ArticleText>, more: Seq<ArticleText>)
    requires
        articles_markup(done) is Err,
    ensures
        articles_markup(done + more) == articles_markup(done),
    decreases more.len(),
{
    if more.len() == 0 {
        assert(done + more =~= done);
    } else {
        lemma_articles_error_persists(done, more.drop_last());
        assert((done + more).drop_last() =~= done + more.drop_last());
    }
}

/// Every article is in the document: where the articles can be rendered, the
/// fragment of the article at position `i` stands somewhere in what they
/// turn into.
pub proof fn lemma_markup_holds_fragment(articles: Seq<ArticleText>, i: int) -> (at: int)
    requires
        0 <= i < articles.len(),
        articles_markup(articles) is Ok,
    ensures
        article_markup(articles[i], i as nat) is Ok,
        occurs_at(
            articles_markup(articles)->Ok_0,
            article_markup(articles[i], i as nat)->Ok_0,
            at,
        ),
    decreases articles.len(),
{
    let front = articles.drop_last();
    let head = articles_markup(front)->Ok_0;
    let all = articles_markup(articles)->Ok_0;
    if i == articles.len() - 1 {
        let fragment = article_markup(articles[i], i as nat)->Ok_0;
        assert(all.subrange(head.len() as int, (head.len() + fragment.len()) as int) =~= fragment);
        head.len() as int
    } else {
        let at = lemma_markup_holds_fragment(front, i);
        let fragment = article_markup(articles[i], i as nat)->Ok_0;
        assert(front[i] == articles[i]);
        assert(all.subrange(at, at + fragment.len()) =~= head.subrange(at, at + fragment.len()));
        at
    }
}

/// Every article is in the content document, under its own anchor: the
/// document holds the fragment of the article at position `i`, which starts
/// with the head of that article.
pub proof fn lemma_document_holds_fragment(articles: Seq<ArticleText>, title: Seq<char>, i: int)
    requires
        0 <= i < articles.len(),
        content_document(articles, title) is Ok,
    ensures
        article_markup(articles[i], i as nat) is Ok,
        exists|at: int| #[trigger]
            occurs_at(
                content_document(articles, title)->Ok_0,
                article_markup(articles[i], i as nat)->Ok_0,
                at,
            ),
        article_head(articles[i], i as nat).is_prefix_of(
            article_markup(articles[i], i as nat)->Ok_0,
        ),
{
    let inner = lemma_markup_holds_fragment(articles, i);
    let body = articles_markup(articles)->Ok_0;
    let doc = content_document(articles, title)->Ok_0;
    let fragment = article_markup(articles[i], i as nat)->Ok_0;
    let at = (document_head(title).len() + inner) as int;
    assert(doc.subrange(at, at + fragment.len()) =~= body.subrange(
        inner,
        inner + fragment.len(),
    ));
    assert(occurs_at(doc, fragment, at));
    let head = article_head(articles[i], i as nat);
    assert(fragment.subrange(0, head.len() as int) =~= head);
}

/// The content document for `articles` under the title `title`: the fragment
/// of each article, in the order given and under its position in that order.
/// One heading line without closing tag fails the whole document; the error
/// names the first such article and line.
pub fn render_document(articles: &Vec<Article>, title: &str) -> (r: Result<String, MarkupError>)
    ensures
        match content_document(texts(articles@), title@) {
            Ok(doc) => r is Ok && r->Ok_0@ == doc,
            Err(e) => r matches Err(err) && err.article == e.0 && err.line == e.1,
        },
{
    let tags = Tags::new();
    let mut out = String::new();
    out.append("<!DOCTYPE html>");
    out.append("<html>");
    out.append("<head>");
    out.append("<title>");
    out.append(title);
    out.append("</title>");
    out.append("<meta http-equiv=\"content-type\" content=\"text/html; charset=UTF-8\">");
    out.append("</head>");
    out.append("<body>");
    let ghost all = texts(articles@);
    let ghost mut made: Seq<char> = Seq::empty();
    proof {
        assert(out@ =~= document_head(title@) + made);
        assert(all.take(0) =~= Seq::<ArticleText>::empty());
    }
    let n = articles.len();
    let mut i: usize = 0;
    while i < n
        invariant
            i <= n,
            n == articles.len(),
            tags.wf(),
            all == texts(articles@),
            articles_markup(all.take(i as int)) == Ok::<Seq<char>, (int, int)>(made),
            out@ == document_head(title@) + made,
        decreases n - i,
    {
        let ghost upto = all.take(i + 1);
        proof {
            assert(upto.drop_last() =~= all.take(i as int));
            assert(upto.last() == articles@[i as int]@);
        }
        match push_article(&mut out, &articles[i], i, &tags) {
            Ok(()) => {
                proof {
                    let m = article_markup(articles@[i as int]@, i as nat)->Ok_0;
                    assert(out@ =~= document_head(title@) + (made + m));
                    made = made + m;
                }
            },
            Err(e) => {
                proof {
                    assert(upto + all.skip(i + 1) =~= all);
                    lemma_articles_error_persists(upto, all.skip(i + 1));
                }
                return Err(e);
            },
        }
        i += 1;
    }
    proof {
        assert(all.take(n as int) =~= all);
    }
    out.append("</body>");
    out.append("</html>");
    proof {
        assert(out@ =~= document_head(title@) + made + document_tail());
    }
    Ok(out)
}

} // verus!
