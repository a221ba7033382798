//! Reading a navigation document back: the links it holds, in order.

use vstd::prelude::*;
use vstd::string::StringExecFns;
use crate::anchor::{anchor_id, anchor_index, lemma_anchor_index, underscored};
use crate::article::ArticleText;
use crate::decimal::{decimal, is_digit, lemma_decimal_shape};
use crate::document::{content_document, lemma_document_holds_fragment};
use crate::markup::{article_head, article_markup, header_markup};
use crate::scan::{lemma_prefix_then, lemma_span_to, lemma_span_without_bounds, occurs_at,
    skip_to, span_without, starts_with};
use crate::text::{chars_of, concat, lemma_concat_first, push_range};
use crate::toc::{lemma_titled, link_close, link_markup, link_mid, link_open, titled, toc_document,
    toc_entries, toc_head, toc_tail, CONTENT_FILE};

verus! {

/// One entry of a navigation document: the anchor name it links to and the
/// text it shows.
#[derive(Debug, Clone, PartialEq, Eq)]
pub struct TocLink {
    pub anchor: String,
    pub title: String,
}

/// An entry, as plain character sequences.
pub struct LinkText {
    pub anchor: Seq<char>,
    pub title: Seq<char>,
}

impl View for TocLink {
    type V = LinkText;

    open spec fn view(&self) -> LinkText {
        LinkText { anchor: self.anchor@, title: self.title@ }
    }
}

/// The entries of a list of links, as plain character sequences.
pub open spec fn link_texts(links: Seq<TocLink>) -> Seq<LinkText> {
    Seq::new(links.len(), |i: int| links[i]@)
}

/// The links in `s`, which is what stands behind the head of a navigation
/// document: entries one after the other, then the tail. In an entry the
/// anchor name runs up to the first double quote and the text up to the
/// first `<`. `None` where `s` is not of that form.
#[verifier::opaque]
pub open spec fn parse_links(s: Seq<char>) -> Option<Seq<LinkText>>
    decreases s.len(),
    via parse_links_decreases
{
    if s == toc_tail() {
        Some(Seq::empty())
    } else if link_open().is_prefix_of(s) {
        let from_anchor = s.skip(link_open().len() as int);
        let anchor_len = span_without(from_anchor, '"') as int;
        let from_mid = from_anchor.skip(anchor_len);
        if link_mid().is_prefix_of(from_mid) {
            let from_title = from_mid.skip(link_mid().len() as int);
            let title_len = span_without(from_title, '<') as int;
            let from_close = from_title.skip(title_len);
            if link_close().is_prefix_of(from_close) {
                match parse_links(from_close.skip(link_close().len() as int)) {
                    Some(rest) => Some(
                        seq![
                            LinkText {
                                anchor: from_anchor.take(anchor_len),
                                title: from_title.take(title_len),
                            },
                        ] + rest,
                    ),
                    None => None,
                }
            } else {
                None
            }
        } else {
            None
        }
    } else {
        None
    }
}

#[via_fn]
proof fn parse_links_decreases(s: Seq<char>) {
    reveal_strlit("</a></li>");
    if link_open().is_prefix_of(s) {
        let from_anchor = s.skip(link_open().len() as int);
        lemma_span_without_bounds(from_anchor, '"');
        let from_mid = from_anchor.skip(span_without(from_anchor, '"') as int);
        if link_mid().is_prefix_of(from_mid) {
            let from_title = from_mid.skip(link_mid().len() as int);
            lemma_span_without_bounds(from_title, '<');
        }
    }
}

/// The links of the navigation document `doc`, or `None` where `doc` is not
/// a navigation document.
pub open spec fn links_in(doc: Seq<char>) -> Option<Seq<LinkText>> {
    if toc_head().is_prefix_of(doc) {
        parse_links(doc.skip(toc_head().len() as int))
    } else {
        None
    }
}

/// The links that the navigation document of an edition holds: for each
/// titled article, in order, its anchor name and its title.
pub open spec fn toc_links(articles: Seq<ArticleText>) -> Seq<LinkText> {
    Seq::new(
        titled(articles).len(),
        |k: int|
            LinkText {
                anchor: anchor_id(articles[titled(articles)[k]].title, titled(articles)[k] as nat),
                title: articles[titled(articles)[k]].title,
            },
    )
}

/// The entries for `links`, one after the other.
pub open spec fn links_markup(links: Seq<LinkText>) -> Seq<char> {
    concat(Seq::new(links.len(), |k: int| link_markup(links[k].anchor, links[k].title)))
}

/// Whether `title` can be read back from a navigation entry: it holds no
/// double quote, which would end the anchor name, and no `<`, which would end
/// the text.
pub open spec fn reads_back(title: Seq<char>) -> bool {
    !title.contains('"') && !title.contains('<')
}

/// An anchor name holds a double quote only if the title does.
pub proof fn lemma_anchor_without_quote(title: Seq<char>, index: nat)
    requires
        !title.contains('"'),
    ensures
        !anchor_id(title, index).contains('"'),
{
    let anchor = anchor_id(title, index);
    lemma_decimal_shape(index);
    assert forall|i: int| 0 <= i < anchor.len() implies anchor[i] != '"' by {
        if i < title.len() {
            assert(title.contains(title[i]));
            assert(anchor[i] == underscored(title)[i]);
        } else if i > title.len() {
            assert(anchor[i] == decimal(index)[i - title.len() - 1]);
            assert(is_digit(decimal(index)[i - title.len() - 1]));
        }
    }
}

/// One entry that was written can be read: where the anchor name holds no
/// double quote and the text no `<`, reading an entry and what follows it
/// gives the entry's link and then the links of what follows.
pub proof fn lemma_parse_entry(anchor: Seq<char>, title: Seq<char>, rest: Seq<char>)
    requires
        !anchor.contains('"'),
        !title.contains('<'),
    ensures
        parse_links(link_markup(anchor, title) + rest) == match parse_links(rest) {
            Some(links) => Some(seq![LinkText { anchor, title }] + links),
            None => None::<Seq<LinkText>>,
        },
{
    reveal(parse_links);
    let open = link_open();
    let mid = link_mid();
    let close = link_close();
    let from_close = close + rest;
    let from_title = title + from_close;
    let from_mid = mid + from_title;
    let from_anchor = anchor + from_mid;
    let s = open + from_anchor;
    assert(link_markup(anchor, title) + rest =~= s);
    assert(s != toc_tail()) by {
        reveal_strlit("<li><a href=\"");
        reveal_strlit("</ol>");
        assert(s[1] == 'l');
        assert(toc_tail()[1] == '/');
    }
    assert(from_mid.len() > 0 && from_mid[0] == '"') by {
        reveal_strlit("\">");
        assert(from_mid[0] == mid[0]);
    }
    assert(from_close.len() > 0 && from_close[0] == '<') by {
        reveal_strlit("</a></li>");
        assert(from_close[0] == close[0]);
    }
    lemma_prefix_then(open, from_anchor);
    lemma_span_to(anchor, from_mid, '"');
    lemma_prefix_then(anchor, from_mid);
    lemma_prefix_then(mid, from_title);
    lemma_span_to(title, from_close, '<');
    lemma_prefix_then(title, from_close);
    lemma_prefix_then(close, rest);
}

/// Entries that were written can be read: where no anchor name holds a
/// double quote and no text holds `<`, reading the entries for `links` gives
/// `links`.
pub proof fn lemma_parse_rendered(links: Seq<LinkText>)
    requires
        forall|k: int|
            0 <= k < links.len() ==> !(#[trigger] links[k]).anchor.contains('"')
                && !links[k].title.contains('<'),
    ensures
        parse_links(links_markup(links) + toc_tail()) == Some(links),
    decreases links.len(),
{
    let parts = Seq::new(links.len(), |k: int| link_markup(links[k].anchor, links[k].title));
    if links.len() == 0 {
        assert(links_markup(links) + toc_tail() =~= toc_tail());
        assert(links =~= Seq::<LinkText>::empty());
        assert(parse_links(toc_tail()) == Some(Seq::<LinkText>::empty())) by {
            reveal(parse_links);
        }
    } else {
        let first = links.first();
        let others = links.drop_first();
        let rest = links_markup(others) + toc_tail();
        lemma_concat_first(parts);
        assert(parts.drop_first() =~= Seq::new(
            others.len(),
            |k: int| link_markup(others[k].anchor, others[k].title),
        ));
        assert forall|k: int| 0 <= k < others.len() implies !(#[trigger] others[k]).anchor.contains(
            '"',
        ) && !others[k].title.contains('<') by {
            assert(others[k] == links[k + 1]);
        }
        lemma_parse_rendered(others);
        lemma_parse_entry(first.anchor, first.title, rest);
        assert(links_markup(links) + toc_tail() =~= link_markup(first.anchor, first.title)
            + rest);
        assert(seq![first] + others =~= links);
    }
}

/// Round trip: the navigation document of an edition, read back, gives for
/// each titled article, in the order of the edition, a link whose text is the
/// title and whose anchor name names the position of that article; it gives
/// nothing for an untitled one. This holds where every title can be read back
/// from an entry.
pub proof fn lemma_toc_round_trip(articles: Seq<ArticleText>)
    requires
        forall|i: int| 0 <= i < articles.len() ==> reads_back(#[trigger] articles[i].title),
    ensures
        links_in(toc_document(articles)) == Some(toc_links(articles)),
        toc_links(articles).len() == titled(articles).len(),
        forall|k: int|
            0 <= k < titled(articles).len() ==> {
                let link = #[trigger] toc_links(articles)[k];
                let position = titled(articles)[k];
                &&& 0 <= position < articles.len()
                &&& link.title == articles[position].title
                &&& link.title.len() > 0
                &&& anchor_index(link.anchor) == Some(position as nat)
            },
{
    lemma_titled(articles);
    let links = toc_links(articles);
    assert forall|k: int| 0 <= k < links.len() implies !(#[trigger] links[k]).anchor.contains('"')
        && !links[k].title.contains('<') by {
        let position = titled(articles)[k];
        assert(reads_back(articles[position].title));
        lemma_anchor_without_quote(articles[position].title, position as nat);
    }
    lemma_parse_rendered(links);
    assert(Seq::new(links.len(), |k: int| link_markup(links[k].anchor, links[k].title))
        =~= toc_entries(articles));
    let doc = toc_document(articles);
    let head = toc_head();
    assert(doc.subrange(0, head.len() as int) =~= head);
    assert(doc.skip(head.len() as int) =~= links_markup(links) + toc_tail());
    assert forall|k: int| 0 <= k < titled(articles).len() implies {
        let link = #[trigger] toc_links(articles)[k];
        let position = titled(articles)[k];
        &&& 0 <= position < articles.len()
        &&& link.title == articles[position].title
        &&& link.title.len() > 0
        &&& anchor_index(link.anchor) == Some(position as nat)
    } by {
        let position = titled(articles)[k];
        lemma_anchor_index(articles[position].title, position as nat);
    }
}

/// One entry that cannot be read back: where the anchor name holds a double
/// quote or the text holds `<`, reading the entry gives nothing or another
/// link.
pub proof fn lemma_parse_entry_misread(anchor: Seq<char>, title: Seq<char>, rest: Seq<char>)
    requires
        anchor.contains('"') || title.contains('<'),
    ensures
        parse_links(link_markup(anchor, title) + rest) matches Some(links) ==> links.len() > 0
            && links[0] != (LinkText { anchor, title }),
{
    reveal(parse_links);
    let open = link_open();
    let mid = link_mid();
    let close = link_close();
    let from_close = close + rest;
    let from_title = title + from_close;
    let from_mid = mid + from_title;
    let from_anchor = anchor + from_mid;
    let s = open + from_anchor;
    assert(link_markup(anchor, title) + rest =~= s);
    assert(s != toc_tail()) by {
        reveal_strlit("<li><a href=\"");
        reveal_strlit("</ol>");
        assert(s[1] == 'l');
        assert(toc_tail()[1] == '/');
    }
    lemma_prefix_then(open, from_anchor);
    if anchor.contains('"') {
        let at = choose|i: int| 0 <= i < anchor.len() && anchor[i] == '"';
        assert(from_anchor[at] == '"');
        lemma_span_without_bounds(from_anchor, '"');
        let read = span_without(from_anchor, '"') as int;
        assert(read <= at);
        assert(from_anchor.take(read).len() != anchor.len());
    } else {
        assert(from_mid.len() > 0 && from_mid[0] == '"') by {
            reveal_strlit("\">");
            assert(from_mid[0] == mid[0]);
        }
        lemma_span_to(anchor, from_mid, '"');
        lemma_prefix_then(anchor, from_mid);
        lemma_prefix_then(mid, from_title);
        let at = choose|i: int| 0 <= i < title.len() && title[i] == '<';
        assert(from_title[at] == '<');
        lemma_span_without_bounds(from_title, '<');
        let read = span_without(from_title, '<') as int;
        assert(read <= at);
        assert(from_title.take(read).len() != title.len());
    }
}

/// Entries of which one cannot be read back are not read back: where some
/// anchor name holds a double quote or some text holds `<`, reading the
/// entries for `links` does not give `links`.
pub proof fn lemma_parse_misread(links: Seq<LinkText>)
    requires
        exists|k: int|
            0 <= k < links.len() && ((#[trigger] links[k]).anchor.contains('"')
                || links[k].title.contains('<')),
    ensures
        parse_links(links_markup(links) + toc_tail()) != Some(links),
    decreases links.len(),
{
    let bad = choose|k: int|
        0 <= k < links.len() && ((#[trigger] links[k]).anchor.contains('"')
            || links[k].title.contains('<'));
    let parts = Seq::new(links.len(), |k: int| link_markup(links[k].anchor, links[k].title));
    let first = links.first();
    let others = links.drop_first();
    let rest = links_markup(others) + toc_tail();
    lemma_concat_first(parts);
    assert(parts.drop_first() =~= Seq::new(
        others.len(),
        |k: int| link_markup(others[k].anchor, others[k].title),
    ));
    assert(links_markup(links) + toc_tail() =~= link_markup(first.anchor, first.title) + rest);
    if first.anchor.contains('"') || first.title.contains('<') {
        lemma_parse_entry_misread(first.anchor, first.title, rest);
    } else {
        assert(others[bad - 1] == links[bad]);
        lemma_parse_misread(others);
        lemma_parse_entry(first.anchor, first.title, rest);
        if parse_links(rest) is Some {
            let read = parse_links(rest)->0;
            if seq![first] + read == links {
                assert((seq![first] + read).drop_first() =~= read);
            }
        }
    }
}

/// A title with a double quote keeps it in its anchor name.
pub proof fn lemma_anchor_with_quote(title: Seq<char>, index: nat)
    requires
        title.contains('"'),
    ensures
        anchor_id(title, index).contains('"'),
{
    let at = choose|i: int| 0 <= i < title.len() && title[i] == '"';
    assert(anchor_id(title, index)[at] == underscored(title)[at]);
}

/// The round trip holds for no other editions: where some title holds a
/// double quote or `<`, the navigation document does not read back as the
/// links of the edition.
pub proof fn lemma_toc_round_trip_needs_plain_titles(articles: Seq<ArticleText>)
    requires
        exists|i: int| 0 <= i < articles.len() && !reads_back(#[trigger] articles[i].title),
    ensures
        links_in(toc_document(articles)) != Some(toc_links(articles)),
{
    let i = choose|i: int| 0 <= i < articles.len() && !reads_back(#[trigger] articles[i].title);
    let title = articles[i].title;
    lemma_titled(articles);
    assert(title.len() > 0) by {
        if title.contains('"') {
            let at = choose|j: int| 0 <= j < title.len() && title[j] == '"';
        } else {
            let at = choose|j: int| 0 <= j < title.len() && title[j] == '<';
        }
    }
    assert(titled(articles).contains(i));
    let k = choose|k: int| 0 <= k < titled(articles).len() && titled(articles)[k] == i;
    let links = toc_links(articles);
    if title.contains('"') {
        lemma_anchor_with_quote(title, i as nat);
    }
    assert(links[k].anchor.contains('"') || links[k].title.contains('<'));
    lemma_parse_misread(links);
    assert(Seq::new(links.len(), |k: int| link_markup(links[k].anchor, links[k].title))
        =~= toc_entries(articles));
    let doc = toc_document(articles);
    let head = toc_head();
    assert(doc.subrange(0, head.len() as int) =~= head);
    assert(doc.skip(head.len() as int) =~= links_markup(links) + toc_tail());
}

/// Link integrity: the anchor name that a navigation entry links to is the
/// one that the fragment of its article declares, and where the edition can
/// be rendered that fragment stands in the content document.
pub proof fn lemma_link_integrity(articles: Seq<ArticleText>, title: Seq<char>, k: int)
    requires
        0 <= k < titled(articles).len(),
    ensures
        ({
            let position = titled(articles)[k];
            let article = articles[position];
            let anchor = anchor_id(article.title, position as nat);
            &&& 0 <= position < articles.len()
            &&& toc_entries(articles)[k] == link_markup(anchor, article.title)
            &&& article_head(article, position as nat) == header_markup(anchor, article)
            &&& content_document(articles, title) matches Ok(doc) ==> {
                &&& article_markup(article, position as nat) matches Ok(fragment)
                &&& header_markup(anchor, article).is_prefix_of(fragment)
                &&& exists|at: int| #[trigger] occurs_at(doc, fragment, at)
            }
        }),
{
    lemma_titled(articles);
    if content_document(articles, title) is Ok {
        lemma_document_holds_fragment(articles, title, titled(articles)[k]);
    }
}

/// The fixed parts of a navigation document, as characters.
struct Marks {
    head: Vec<char>,
    open: Vec<char>,
    mid: Vec<char>,
    close: Vec<char>,
    tail: Vec<char>,
}

impl Marks {
    spec fn wf(&self) -> bool {
        &&& self.head@ == toc_head()
        &&& self.open@ == link_open()
        &&& self.mid@ == link_mid()
        &&& self.close@ == link_close()
        &&& self.tail@ == toc_tail()
    }

    fn new() -> (marks: Marks)
        ensures
            marks.wf(),
    {
        let mut head = String::new();
        head.append("<!DOCTYPE html>");
        head.append("<html>");
        head.append("<head>");
        head.append("<meta http-equiv=\"content-type\" content=\"text/html; charset=UTF-8\">");
        head.append("</head>");
        head.append("<body>");
        head.append("<nav epub:type=\"toc\">");
        head.append("<ol>");
        let mut open = String::new();
        open.append("<li><a href=\"");
        open.append(CONTENT_FILE);
        open.append("#");
        let mut tail = String::new();
        tail.append("</ol>");
        tail.append("</nav>");
        tail.append("</body>");
        tail.append("</html>");
        proof {
            assert(head@ =~= toc_head());
            assert(open@ =~= link_open());
            assert(tail@ =~= toc_tail());
        }
        Marks {
            head: chars_of(head.as_str()),
            open: chars_of(open.as_str()),
            mid: chars_of("\">"),
            close: chars_of("</a></li>"),
            tail: chars_of(tail.as_str()),
        }
    }
}

/// The links of the navigation document `doc`, in the order in which they
/// stand in it: for each entry the anchor name it links to and the text it
/// shows. `None` where `doc` is not a navigation document: where it does not
/// start with the head, or what follows is not entries and then the tail.
pub fn parse_toc(doc: &str) -> (r: Option<Vec<TocLink>>)
    ensures
        match links_in(doc@) {
            Some(links) => r is Some && link_texts(r->0@) == links,
            None => r is None,
        },
{
    let text = chars_of(doc);
    let len = text.len();
    let marks = Marks::new();
    proof {
        assert(text@.subrange(0, len as int) =~= text@);
    }
    if !starts_with(&text, 0, len, &marks.head) {
        return None;
    }
    let mut at: usize = marks.head.len();
    let mut links: Vec<TocLink> = Vec::new();
    proof {
        reveal_strlit("</a></li>");
        let rest = parse_links(text@.skip(at as int));
        if rest is Some {
            assert(link_texts(links@) + rest->0 =~= rest->0);
        }
    }
    loop
        invariant
            at <= len,
            len == text.len(),
            text@ == doc@,
            marks.wf(),
            link_close().len() == 9,
            links_in(doc@) == match parse_links(text@.skip(at as int)) {
                Some(rest) => Some(link_texts(links@) + rest),
                None => None,
            },
        decreases len - at,
    {
        let ghost s = text@.skip(at as int);
        proof {
            reveal(parse_links);
            assert(text@.subrange(at as int, len as int) =~= s);
        }
        if len - at == marks.tail.len() && starts_with(&text, at, len, &marks.tail) {
            proof {
                assert(s =~= toc_tail());
                assert(link_texts(links@) + Seq::<LinkText>::empty() =~= link_texts(links@));
            }
            return Some(links);
        }
        proof {
            if s == toc_tail() {
                assert(s.subrange(0, s.len() as int) =~= s);
            }
        }
        if !starts_with(&text, at, len, &marks.open) {
            return None;
        }
        let anchor_from = at + marks.open.len();
        let anchor_to = skip_to(&text, anchor_from, '"');
        let ghost from_anchor = s.skip(link_open().len() as int);
        let ghost anchor_len = span_without(from_anchor, '"') as int;
        let ghost from_mid = from_anchor.skip(anchor_len);
        proof {
            assert(from_anchor =~= text@.skip(anchor_from as int));
            assert(from_mid =~= text@.skip(anchor_to as int));
            assert(text@.subrange(anchor_to as int, len as int) =~= from_mid);
        }
        if !starts_with(&text, anchor_to, len, &marks.mid) {
            return None;
        }
        let title_from = anchor_to + marks.mid.len();
        let title_to = skip_to(&text, title_from, '<');
        let ghost from_title = from_mid.skip(link_mid().len() as int);
        let ghost title_len = span_without(from_title, '<') as int;
        let ghost from_close = from_title.skip(title_len);
        proof {
            assert(from_title =~= text@.skip(title_from as int));
            assert(from_close =~= text@.skip(title_to as int));
            assert(text@.subrange(title_to as int, len as int) =~= from_close);
        }
        if !starts_with(&text, title_to, len, &marks.close) {
            return None;
        }
        let next = title_to + marks.close.len();
        let mut anchor = String::new();
        push_range(&mut anchor, &text, anchor_from, anchor_to);
        let mut title = String::new();
        push_range(&mut title, &text, title_from, title_to);
        let ghost before = link_texts(links@);
        links.push(TocLink { anchor, title });
        proof {
            let link = LinkText {
                anchor: from_anchor.take(anchor_len),
                title: from_title.take(title_len),
            };
            assert(anchor@ =~= link.anchor);
            assert(title@ =~= link.title);
            assert(from_close.skip(link_close().len() as int) =~= text@.skip(next as int));
            assert(link_texts(links@) =~= before.push(link));
            let rest = parse_links(text@.skip(next as int));
            if rest is Some {
                assert(before + (seq![link] + rest->0) =~= link_texts(links@) + rest->0);
            }
        }
        at = next;
    }
}

} // verus!
