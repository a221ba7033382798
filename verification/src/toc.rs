//! The navigation builder: a table of contents that links to every titled
//! article of the content document.

use vstd::prelude::*;
use vstd::string::StringExecFns;
use crate::anchor::{anchor_id, push_anchor};
use crate::article::{Article, ArticleText, texts};
use crate::text::{chars_of, concat};

verus! {

/// Name of the file that holds the navigation document.
pub const TOC_FILE: &'static str = "toc.html";

/// Name of the file that holds the content document.
pub const CONTENT_FILE: &'static str = "content.html";

/// The positions of the articles that have a title, in ascending order.
pub open spec fn titled(articles: Seq<ArticleText>) -> Seq<int>
    decreases articles.len(),
{
    if articles.len() == 0 {
        Seq::empty()
    } else if articles.last().title.len() == 0 {
        titled(articles.drop_last())
    } else {
        titled(articles.drop_last()).push(articles.len() - 1)
    }
}

/// What opens a navigation entry, up to the anchor name it links to.
pub open spec fn link_open() -> Seq<char> {
    "<li><a href=\""@ + CONTENT_FILE@ + "#"@
}

/// What stands between the anchor name of an entry and its text.
pub open spec fn link_mid() -> Seq<char> {
    "\">"@
}

/// What closes a navigation entry.
pub open spec fn link_close() -> Seq<char> {
    "</a></li>"@
}

/// A navigation entry that links to `anchor` in the content document and
/// shows `text`.
pub open spec fn link_markup(anchor: Seq<char>, text: Seq<char>) -> Seq<char> {
    link_open() + anchor + link_mid() + text + link_close()
}

/// The navigation entry for the article titled `title` at position `index`:
/// a link to its anchor in the content document, with the title as text.
pub open spec fn toc_entry(title: Seq<char>, index: nat) -> Seq<char> {
    link_markup(anchor_id(title, index), title)
}

/// The navigation entries of an edition: one for each titled article.
pub open spec fn toc_entries(articles: Seq<ArticleText>) -> Seq<Seq<char>> {
    Seq::new(
        titled(articles).len(),
        |k: int| toc_entry(articles[titled(articles)[k]].title, titled(articles)[k] as nat),
    )
}

/// What stands before the entries of a navigation document.
pub open spec fn toc_head() -> Seq<char> {
    "<!DOCTYPE html>"@ + "<html>"@ + "<head>"@
        + "<meta http-equiv=\"content-type\" content=\"text/html; charset=UTF-8\">"@ + "</head>"@
        + "<body>"@ + "<nav epub:type=\"toc\">"@ + "<ol>"@
}

/// What stands behind the entries of a navigation document.
pub open spec fn toc_tail() -> Seq<char> {
    "</ol>"@ + "</nav>"@ + "</body>"@ + "</html>"@
}

/// The navigation document of an edition.
pub open spec fn toc_document(articles: Seq<ArticleText>) -> Seq<char> {
    toc_head() + concat(toc_entries(articles)) + toc_tail()
}

/// `titled` holds valid positions of titled articles only, in strictly
/// ascending order, and misses none.
pub proof fn lemma_titled(articles: Seq<ArticleText>)
    ensures
        titled(articles).len() <= articles.len(),
        forall|k: int|
            0 <= k < titled(articles).len() ==> 0 <= #[trigger] titled(articles)[k]
                < articles.len() && articles[titled(articles)[k]].title.len() > 0,
        forall|j: int, k: int|
            0 <= j < k < titled(articles).len() ==> titled(articles)[j] < titled(articles)[k],
        forall|i: int|
            0 <= i < articles.len() && articles[i].title.len() > 0 ==> titled(articles).contains(
                i,
            ),
    decreases articles.len(),
{
    if articles.len() > 0 {
        let front = articles.drop_last();
        let last = articles.len() - 1;
        lemma_titled(front);
        let t = titled(articles);
        assert forall|k: int| 0 <= k < t.len() implies 0 <= #[trigger] t[k] < articles.len()
            && articles[t[k]].title.len() > 0 by {
            if k < titled(front).len() {
                assert(t[k] == titled(front)[k]);
                assert(front[t[k]] == articles[t[k]]);
            }
        }
        assert forall|j: int, k: int| 0 <= j < k < t.len() implies t[j] < t[k] by {
            assert(t[j] == titled(front)[j]);
            if k < titled(front).len() {
                assert(t[k] == titled(front)[k]);
            }
        }
        assert forall|i: int| 0 <= i < articles.len() && articles[i].title.len() > 0 implies t.contains(
            i,
        ) by {
            if i < last {
                assert(front[i] == articles[i]);
                assert(titled(front).contains(i));
                let k = choose|k: int| 0 <= k < titled(front).len() && titled(front)[k] == i;
                assert(t[k] == i);
            } else {
                assert(t[t.len() - 1] == i);
            }
        }
    }
}

/// The navigation holds one entry for each titled article, in the order of
/// the edition, and none for an untitled one: there are as many entries as
/// titled articles, entry `k` is the entry of the `k`-th titled article under
/// its position in the edition, and these positions ascend and miss no titled
/// article.
pub proof fn lemma_one_entry_per_titled_article(articles: Seq<ArticleText>)
    ensures
        toc_entries(articles).len() == titled(articles).len(),
        forall|k: int|
            0 <= k < titled(articles).len() ==> {
                let position = #[trigger] titled(articles)[k];
                &&& 0 <= position < articles.len()
                &&& articles[position].title.len() > 0
                &&& toc_entries(articles)[k] == toc_entry(
                    articles[position].title,
                    position as nat,
                )
            },
        forall|j: int, k: int|
            0 <= j < k < titled(articles).len() ==> titled(articles)[j] < titled(articles)[k],
        forall|i: int|
            0 <= i < articles.len() && articles[i].title.len() > 0 ==> titled(articles).contains(
                i,
            ),
        forall|i: int|
            0 <= i < articles.len() && articles[i].title.len() == 0 ==> !titled(
                articles,
            ).contains(i),
{
    lemma_titled(articles);
    assert forall|i: int| 0 <= i < articles.len() && articles[i].title.len() == 0 implies !titled(
        articles,
    ).contains(i) by {
        if titled(articles).contains(i) {
            let k = choose|k: int| 0 <= k < titled(articles).len() && titled(articles)[k] == i;
            assert(articles[titled(articles)[k]].title.len() > 0);
        }
    }
}

/// How the entries grow with one more article at the end.
pub proof fn lemma_toc_entries_step(articles: Seq<ArticleText>)
    requires
        articles.len() > 0,
    ensures
        toc_entries(articles) == if articles.last().title.len() == 0 {
            toc_entries(articles.drop_last())
        } else {
            toc_entries(articles.drop_last()).push(
                toc_entry(articles.last().title, (articles.len() - 1) as nat),
            )
        },
{
    let front = articles.drop_last();
    lemma_titled(front);
    let step = if articles.last().title.len() == 0 {
        toc_entries(front)
    } else {
        toc_entries(front).push(toc_entry(articles.last().title, (articles.len() - 1) as nat))
    };
    assert forall|k: int| 0 <= k < titled(front).len() implies toc_entries(articles)[k]
        == toc_entries(front)[k] by {
        assert(titled(articles)[k] == titled(front)[k]);
        assert(front[titled(front)[k]] == articles[titled(front)[k]]);
    }
    assert(toc_entries(articles) =~= step);
}

/// The navigation document for `articles`: one entry for each article with
/// a title, in the order given; an article without title gets none.
pub fn render_toc(articles: &Vec<Article>) -> (toc: String)
    ensures
        toc@ == toc_document(texts(articles@)),
{
    let mut out = String::new();
    out.append("<!DOCTYPE html>");
    out.append("<html>");
    out.append("<head>");
    out.append("<meta http-equiv=\"content-type\" content=\"text/html; charset=UTF-8\">");
    out.append("</head>");
    out.append("<body>");
    out.append("<nav epub:type=\"toc\">");
    out.append("<ol>");
    let ghost all = texts(articles@);
    let ghost mut made: Seq<char> = Seq::empty();
    proof {
        assert(out@ =~= toc_head() + made);
        assert(all.take(0) =~= Seq::<ArticleText>::empty());
    }
    let n = articles.len();
    let mut i: usize = 0;
    while i < n
        invariant
            i <= n,
            n == articles.len(),
            all == texts(articles@),
            made == concat(toc_entries(all.take(i as int))),
            out@ == toc_head() + made,
        decreases n - i,
    {
        let article = &articles[i];
        let ghost upto = all.take(i + 1);
        proof {
            assert(upto.drop_last() =~= all.take(i as int));
            assert(upto.last() == article@);
            lemma_toc_entries_step(upto);
        }
        if !article.title.as_str().is_empty() {
            let title = chars_of(article.title.as_str());
            out.append("<li><a href=\"");
            out.append(CONTENT_FILE);
            out.append("#");
            push_anchor(&mut out, &title, i);
            out.append("\">");
            out.append(article.title.as_str());
            out.append("</a></li>");
            proof {
                let entry = toc_entry(article@.title, i as nat);
                assert(toc_entries(upto).drop_last() =~= toc_entries(all.take(i as int)));
                assert(out@ =~= toc_head() + (made + entry));
                made = made + entry;
            }
        }
        i += 1;
    }
    proof {
        assert(all.take(n as int) =~= all);
    }
    out.append("</ol>");
    out.append("</nav>");
    out.append("</body>");
    out.append("</html>");
    proof {
        assert(out@ =~= toc_head() + made + toc_tail());
    }
    out
}

} // verus!
