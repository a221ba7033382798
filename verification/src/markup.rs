//! The markup transformer: an article's raw content becomes a run of HTML
//! sections, a new one wherever a line opens with a sub-heading marker.

use vstd::prelude::*;
use vstd::string::StringExecFns;
use crate::anchor::{anchor_id, push_anchor};
use crate::article::{Article, ArticleText};
use crate::scan::{find, first_occurrence, lemma_first_occurrence, lines, next_line, occurs_at,
    starts_with};
use crate::text::{chars_of, concat, push_range};

verus! {

/// The marker that opens a sub-heading; it counts only at the start of a line.
pub open spec fn heading_open() -> Seq<char> {
    "<div class='h3'>"@
}

/// The tag that closes a sub-heading; it must stand on the marker's line.
pub open spec fn heading_close() -> Seq<char> {
    "</div>"@
}

/// Whether `line` opens a sub-section.
pub open spec fn is_heading_line(line: Seq<char>) -> bool {
    heading_open().is_prefix_of(line)
}

/// What a heading line whose closing tag starts at `close` turns into: the
/// change of section, the heading, and the rest of the line as body text.
pub open spec fn heading_markup(line: Seq<char>, close: int) -> Seq<char> {
    "</section>"@ + "<section>"@ + "<h3>"@ + line.subrange(heading_open().len() as int, close)
        + "</h3>"@ + line.skip(close + heading_close().len())
}

/// What one line of content turns into; `None` for a heading line that lacks
/// its closing tag. Any other line stands for itself.
pub open spec fn line_markup(line: Seq<char>) -> Option<Seq<char>> {
    if is_heading_line(line) {
        match first_occurrence(line, heading_close()) {
            Some(close) => Some(heading_markup(line, close)),
            None => None,
        }
    } else {
        Some(line)
    }
}

/// What a run of lines turns into, one after the other with nothing between
/// them; `Err(k)` when line `k` is the first heading line without closing tag.
pub open spec fn lines_markup(ls: Seq<Seq<char>>) -> Result<Seq<char>, int>
    decreases ls.len(),
{
    if ls.len() == 0 {
        Ok(Seq::empty())
    } else {
        match lines_markup(ls.drop_last()) {
            Err(k) => Err(k),
            Ok(head) => match line_markup(ls.last()) {
                Some(m) => Ok(head + m),
                None => Err(ls.len() - 1),
            },
        }
    }
}

/// What the content of an article turns into.
pub open spec fn body_markup(content: Seq<char>) -> Result<Seq<char>, int> {
    lines_markup(lines(content))
}

/// What stands before the body of the article `a` when its title is the
/// target of the anchor named `anchor`.
pub open spec fn header_markup(anchor: Seq<char>, a: ArticleText) -> Seq<char> {
    "<article>"@ + "<header><div>"@ + "<a name=\""@ + anchor + "\"><h1>"@ + a.title
        + "</h1></a>"@ + "<h2>"@ + a.blurb + "</h2>"@ + "</div></header>"@ + "<address>"@
        + a.byline + "</address>"@ + "<section>"@
}

/// What stands before the body of the article `a` at position `index`.
pub open spec fn article_head(a: ArticleText, index: nat) -> Seq<char> {
    header_markup(anchor_id(a.title, index), a)
}

/// What stands behind the body of an article.
pub open spec fn article_tail() -> Seq<char> {
    "</section>"@ + "</article>"@
}

/// The fragment for the article `a` at position `index`.
pub open spec fn article_markup(a: ArticleText, index: nat) -> Result<Seq<char>, int> {
    match body_markup(a.content) {
        Ok(body) => Ok(article_head(a, index) + body + article_tail()),
        Err(line) => Err(line),
    }
}

/// A sub-heading marker that is not closed on its own line.
#[derive(Debug, Clone, Copy, PartialEq, Eq)]
pub struct MarkupError {
    /// Position of the article in the edition.
    pub article: usize,
    /// Number of the offending line in the article's content, from 0.
    pub line: usize,
}

/// The two tags as characters, made once and used for every line.
pub(crate) struct Tags {
    open: Vec<char>,
    close: Vec<char>,
}

impl Tags {
    pub(crate) closed spec fn wf(&self) -> bool {
        &&& self.open@ == heading_open()
        &&& self.close@ == heading_close()
    }

    pub(crate) fn new() -> (tags: Tags)
        ensures
            tags.wf(),
    {
        Tags { open: chars_of("<div class='h3'>"), close: chars_of("</div>") }
    }
}

/// On a heading line the closing tag starts behind the marker.
pub proof fn lemma_close_behind_open(line: Seq<char>, close: int)
    requires
        is_heading_line(line),
        occurs_at(line, heading_close(), close),
    ensures
        close >= heading_open().len(),
{
    reveal_strlit("<div class='h3'>");
    reveal_strlit("</div>");
    let open = heading_open();
    let tag = heading_close();
    assert(open.len() == 16);
    assert(tag.len() == 6);
    if close < 16 {
        let found = line.subrange(close, close + 6);
        assert(found[0] == line[close]);
        assert(found[1] == line[close + 1]);
        assert(line.subrange(0, 16)[close] == line[close]);
        assert(open[close] == '<');
        assert(close == 0 || close == 1 || close == 2 || close == 3 || close == 4 || close == 5
            || close == 6 || close == 7 || close == 8 || close == 9 || close == 10 || close == 11
            || close == 12 || close == 13 || close == 14 || close == 15);
        assert(close == 0);
        assert(line.subrange(0, 16)[1] == line[1]);
        assert(false);
    }
}

/// Appends to `out` what the line `text[start..end]` turns into, if anything.
fn push_line(out: &mut String, text: &Vec<char>, start: usize, end: usize, tags: &Tags) -> (ok:
    bool)
    requires
        start <= end <= text.len(),
        tags.wf(),
    ensures
        match line_markup(text@.subrange(start as int, end as int)) {
            Some(m) => ok && final(out)@ == old(out)@ + m,
            None => !ok && final(out)@ == old(out)@,
        },
{
    let ghost line = text@.subrange(start as int, end as int);
    if starts_with(text, start, end, &tags.open) {
        match find(text, start, end, &tags.close) {
            Some(close) => {
                proof {
                    lemma_first_occurrence(line, heading_close());
                    lemma_close_behind_open(line, close as int);
                }
                let from = start + tags.open.len();
                let to = start + close;
                let rest = to + tags.close.len();
                out.append("</section>");
                out.append("<section>");
                out.append("<h3>");
                push_range(out, text, from, to);
                out.append("</h3>");
                push_range(out, text, rest, end);
                proof {
                    assert(text@.subrange(from as int, to as int) =~= line.subrange(
                        heading_open().len() as int,
                        close as int,
                    ));
                    assert(text@.subrange(rest as int, end as int) =~= line.skip(
                        close + heading_close().len(),
                    ));
                    assert(out@ =~= old(out)@ + heading_markup(line, close as int));
                }
                true
            },
            None => false,
        }
    } else {
        push_range(out, text, start, end);
        true
    }
}

/// Lines without marker are copied: where no line opens a sub-section, what
/// the lines turn into is the lines themselves, one after the other.
pub proof fn lemma_plain_lines_verbatim(ls: Seq<Seq<char>>)
    requires
        forall|k: int| 0 <= k < ls.len() ==> !is_heading_line(#[trigger] ls[k]),
    ensures
        lines_markup(ls) == Ok::<Seq<char>, int>(concat(ls)),
    decreases ls.len(),
{
    if ls.len() > 0 {
        let front = ls.drop_last();
        assert forall|k: int| 0 <= k < front.len() implies !is_heading_line(
            #[trigger] front[k],
        ) by {
            assert(front[k] == ls[k]);
        }
        lemma_plain_lines_verbatim(front);
        assert(!is_heading_line(ls[ls.len() - 1]));
    }
}

/// Once a line has failed, more lines behind it change nothing.
pub proof fn lemma_markup_error_persists(done: Seq<Seq<char>>, more: Seq<Seq<char>>)
    requires
        lines_markup(done) is Err,
    ensures
        lines_markup(done + more) == lines_markup(done),
    decreases more.len(),
{
    if more.len() == 0 {
        assert(done + more =~= done);
    } else {
        lemma_markup_error_persists(done, more.drop_last());
        assert((done + more).drop_last() =~= done + more.drop_last());
    }
}

/// Appends to `out` what the content `text` turns into; stops at the first
/// heading line without closing tag and hands back its number.
pub(crate) fn push_body(out: &mut String, text: &Vec<char>, tags: &Tags) -> (r: Result<(), usize>)
    requires
        tags.wf(),
    ensures
        match body_markup(text@) {
            Ok(m) => r is Ok && final(out)@ == old(out)@ + m,
            Err(k) => r matches Err(n) && n == k && old(out)@.is_prefix_of(final(out)@),
        },
{
    let len = text.len();
    let mut at: usize = 0;
    let mut count: usize = 0;
    let ghost mut done: Seq<Seq<char>> = Seq::empty();
    let ghost mut made: Seq<char> = Seq::empty();
    proof {
        assert(text@.skip(0) =~= text@);
        assert(done + lines(text@) =~= lines(text@));
        assert(out@ =~= old(out)@ + made);
    }
    while at < len
        invariant
            count <= at <= len,
            len == text.len(),
            tags.wf(),
            done.len() == count,
            lines(text@) == done + lines(text@.skip(at as int)),
            lines_markup(done) == Ok::<Seq<char>, int>(made),
            out@ == old(out)@ + made,
        decreases len - at,
    {
        let (end, next) = next_line(text, at);
        let ghost line = text@.subrange(at as int, end as int);
        let ghost rest = lines(text@.skip(next as int));
        let ok = push_line(out, text, at, end, tags);
        proof {
            assert(done.push(line).drop_last() =~= done);
            assert(done + (seq![line] + rest) =~= done.push(line) + rest);
        }
        if !ok {
            proof {
                lemma_markup_error_persists(done.push(line), rest);
            }
            return Err(count);
        }
        proof {
            let m = line_markup(line)->0;
            assert(out@ =~= old(out)@ + (made + m));
            made = made + m;
            done = done.push(line);
        }
        at = next;
        count += 1;
    }
    proof {
        assert(text@.skip(len as int).len() == 0);
        assert(done + lines(text@.skip(len as int)) =~= done);
    }
    Ok(())
}

/// Appends the fragment for `article` at position `index` to `out`.
pub(crate) fn push_article(out: &mut String, article: &Article, index: usize, tags: &Tags) -> (r: Result<
    (),
    MarkupError,
>)
    requires
        tags.wf(),
    ensures
        match article_markup(article@, index as nat) {
            Ok(m) => r is Ok && final(out)@ == old(out)@ + m,
            Err(k) => r matches Err(e) && e.article == index && e.line == k && old(
                out,
            )@.is_prefix_of(final(out)@),
        },
{
    let title = chars_of(article.title.as_str());
    let content = chars_of(article.content.as_str());
    out.append("<article>");
    out.append("<header><div>");
    out.append("<a name=\"");
    push_anchor(out, &title, index);
    out.append("\"><h1>");
    out.append(article.title.as_str());
    out.append("</h1></a>");
    out.append("<h2>");
    out.append(article.blurb.as_str());
    out.append("</h2>");
    out.append("</div></header>");
    out.append("<address>");
    out.append(article.byline.as_str());
    out.append("</address>");
    out.append("<section>");
    let ghost head = article_head(article@, index as nat);
    proof {
        assert(out@ =~= old(out)@ + head);
    }
    match push_body(out, &content, tags) {
        Ok(()) => {
            out.append("</section>");
            out.append("</article>");
            proof {
                let body = body_markup(article@.content)->Ok_0;
                assert(out@ =~= old(out)@ + (head + body + article_tail()));
            }
            Ok(())
        },
        Err(line) => Err(MarkupError { article: index, line }),
    }
}

/// What the single line `line` of content turns into: the line itself, or for
/// a line that opens with the sub-heading marker the change of section, the
/// heading and the rest of the line. `None` if the marker is never closed.
pub fn render_line(line: &str) -> (r: Option<String>)
    ensures
        match line_markup(line@) {
            Some(m) => r is Some && r->0@ == m,
            None => r is None,
        },
        !is_heading_line(line@) ==> r is Some && r->0@ == line@,
{
    let text = chars_of(line);
    let tags = Tags::new();
    let mut out = String::new();
    proof {
        assert(text@.subrange(0, text.len() as int) =~= line@);
    }
    if push_line(&mut out, &text, 0, text.len(), &tags) {
        Some(out)
    } else {
        None
    }
}

/// The fragment for `article` at position `index` of its edition: header
/// with anchor, title and blurb, the byline, and the content as sections.
/// Fails on the first heading line of the content that lacks its closing tag.
pub fn render_article(article: &Article, index: usize) -> (r: Result<String, MarkupError>)
    ensures
        match article_markup(article@, index as nat) {
            Ok(m) => r is Ok && r->Ok_0@ == m,
            Err(k) => r matches Err(e) && e.article == index && e.line == k,
        },
{
    let tags = Tags::new();
    let mut out = String::new();
    match push_article(&mut out, article, index, &tags) {
        Ok(()) => Ok(out),
        Err(e) => Err(e),
    }
}

} // verus!
