//! Section blocks: the content of an article as the runs between its
//! sub-heading markers.

use vstd::prelude::*;
use vstd::string::StringExecFns;
use crate::markup::{heading_close, heading_open, is_heading_line, lemma_close_behind_open,
    line_markup, lines_markup};
use crate::scan::{find, first_occurrence, lemma_first_occurrence, lines, next_line, starts_with};
use crate::text::{chars_of, concat, push_range};

verus! {

/// A run of an article's content between sub-heading markers.
#[derive(Debug, Clone, PartialEq, Eq)]
pub struct SectionBlock {
    /// The sub-heading that opens the block; none for what stands before the
    /// first marker.
    pub heading: Option<String>,
    /// The lines of the block, one after the other.
    pub body: String,
}

/// A section block, as plain character sequences.
pub struct BlockText {
    pub heading: Option<Seq<char>>,
    pub body: Seq<char>,
}

impl View for SectionBlock {
    type V = BlockText;

    open spec fn view(&self) -> BlockText {
        BlockText {
            heading: match self.heading {
                Some(h) => Some(h@),
                None => None,
            },
            body: self.body@,
        }
    }
}

/// The section blocks of a list of blocks, as plain character sequences.
pub open spec fn block_texts(blocks: Seq<SectionBlock>) -> Seq<BlockText> {
    Seq::new(blocks.len(), |i: int| blocks[i]@)
}

/// `block` with `line` added to its body.
pub open spec fn extended(block: BlockText, line: Seq<char>) -> BlockText {
    BlockText { heading: block.heading, body: block.body + line }
}

/// The block that the heading line `line` opens, where its closing tag
/// starts at `close`: the heading is what stands between marker and closing
/// tag, the body starts with what stands behind the closing tag.
pub open spec fn opened(line: Seq<char>, close: int) -> BlockText {
    BlockText {
        heading: Some(line.subrange(heading_open().len() as int, close)),
        body: line.skip(close + heading_close().len()),
    }
}

/// The section blocks of a run of lines. There is always a first block
/// without heading, for the lines before the first marker; every heading
/// line opens a new block; every other line is added to the body of the
/// block that is open. `Err(k)` when line `k` is the first heading line
/// without closing tag.
pub open spec fn blocks_of(ls: Seq<Seq<char>>) -> Result<Seq<BlockText>, int>
    decreases ls.len(),
{
    if ls.len() == 0 {
        Ok(seq![BlockText { heading: None, body: Seq::empty() }])
    } else {
        match blocks_of(ls.drop_last()) {
            Err(k) => Err(k),
            Ok(blocks) => if is_heading_line(ls.last()) {
                match first_occurrence(ls.last(), heading_close()) {
                    Some(close) => Ok(blocks.push(opened(ls.last(), close))),
                    None => Err(ls.len() - 1),
                }
            } else {
                Ok(blocks.drop_last().push(extended(blocks.last(), ls.last())))
            },
        }
    }
}

/// The section blocks of the content of an article.
pub open spec fn section_blocks(content: Seq<char>) -> Result<Seq<BlockText>, int> {
    blocks_of(lines(content))
}

/// The markup of one block from its opening tag up to, but without, its
/// closing tag.
pub open spec fn block_start(block: BlockText) -> Seq<char> {
    match block.heading {
        Some(h) => "<section>"@ + "<h3>"@ + h + "</h3>"@ + block.body,
        None => "<section>"@ + block.body,
    }
}

/// The markup of one block: a section with its heading, if it has one, and
/// its body.
pub open spec fn block_markup(block: BlockText) -> Seq<char> {
    block_start(block) + "</section>"@
}

/// The markup of a run of blocks: one section after the other.
pub open spec fn blocks_markup(blocks: Seq<BlockText>) -> Seq<char> {
    concat(Seq::new(blocks.len(), |i: int| block_markup(blocks[i])))
}

/// The markup of a run of blocks of which the last is still open.
pub open spec fn open_markup(blocks: Seq<BlockText>) -> Seq<char> {
    blocks_markup(blocks.drop_last()) + block_start(blocks.last())
}

/// Closing the last block completes the markup.
pub proof fn lemma_close_last(blocks: Seq<BlockText>)
    requires
        blocks.len() > 0,
    ensures
        blocks_markup(blocks) == open_markup(blocks) + "</section>"@,
{
    let parts = Seq::new(blocks.len(), |i: int| block_markup(blocks[i]));
    let front = blocks.drop_last();
    assert(parts.drop_last() =~= Seq::new(front.len(), |i: int| block_markup(front[i])));
    assert(blocks_markup(blocks) =~= open_markup(blocks) + "</section>"@);
}

/// The blocks say what the markup says: the sections of the blocks of some
/// lines are the first section's opening tag, what the lines turn into, and
/// the last section's closing tag; and the blocks fail on the line on which
/// the markup fails.
pub proof fn lemma_blocks_are_the_markup(ls: Seq<Seq<char>>)
    ensures
        match lines_markup(ls) {
            Ok(m) => blocks_of(ls) is Ok && blocks_of(ls)->Ok_0.len() > 0 && open_markup(
                blocks_of(ls)->Ok_0,
            ) == "<section>"@ + m && blocks_markup(blocks_of(ls)->Ok_0) == "<section>"@ + m
                + "</section>"@,
            Err(k) => blocks_of(ls) == Err::<Seq<BlockText>, int>(k),
        },
    decreases ls.len(),
{
    if ls.len() == 0 {
        let blocks = blocks_of(ls)->Ok_0;
        assert(blocks.drop_last() =~= Seq::<BlockText>::empty());
        assert(Seq::new(0, |i: int| block_markup(blocks.drop_last()[i])) =~= Seq::<
            Seq<char>,
        >::empty());
        assert(open_markup(blocks) =~= "<section>"@ + Seq::<char>::empty());
        lemma_close_last(blocks);
    } else {
        let front = ls.drop_last();
        let line = ls.last();
        lemma_blocks_are_the_markup(front);
        match lines_markup(front) {
            Err(k) => {},
            Ok(head) => {
                let before = blocks_of(front)->Ok_0;
                if is_heading_line(line) {
                    match first_occurrence(line, heading_close()) {
                        None => {},
                        Some(close) => {
                            let blocks = before.push(opened(line, close));
                            assert(blocks.drop_last() =~= before);
                            lemma_close_last(before);
                            assert(open_markup(blocks) =~= "<section>"@ + (head + line_markup(
                                line,
                            )->0));
                            lemma_close_last(blocks);
                        },
                    }
                } else {
                    let blocks = before.drop_last().push(extended(before.last(), line));
                    assert(blocks.drop_last() =~= before.drop_last());
                    assert(blocks.last() == extended(before.last(), line));
                    assert(block_start(blocks.last()) =~= block_start(before.last()) + line);
                    assert(open_markup(blocks) =~= open_markup(before) + line);
                    assert(open_markup(blocks) =~= "<section>"@ + (head + line));
                    lemma_close_last(blocks);
                }
            },
        }
    }
}

/// The section blocks of `content`, in order: first what stands before the
/// first sub-heading marker, then one block for each heading line. A line
/// feed ends a line and belongs to no block. Fails with the number of the
/// first heading line that lacks its closing tag.
pub fn split_sections(content: &str) -> (r: Result<Vec<SectionBlock>, usize>)
    ensures
        match section_blocks(content@) {
            Ok(blocks) => r is Ok && block_texts(r->Ok_0@) == blocks,
            Err(k) => r matches Err(line) && line == k,
        },
{
    let text = chars_of(content);
    let open = chars_of("<div class='h3'>");
    let close = chars_of("</div>");
    let len = text.len();
    let mut blocks: Vec<SectionBlock> = Vec::new();
    let mut heading: Option<String> = None;
    let mut body = String::new();
    let mut at: usize = 0;
    let mut count: usize = 0;
    let ghost mut done: Seq<Seq<char>> = Seq::empty();
    proof {
        assert(text@.skip(0) =~= text@);
        assert(done + lines(text@) =~= lines(text@));
        assert(block_texts(blocks@).push(BlockText { heading: None, body: body@ }) =~= seq![
            BlockText { heading: None, body: Seq::<char>::empty() },
        ]);
    }
    while at < len
        invariant
            count <= at <= len,
            len == text.len(),
            text@ == content@,
            open@ == heading_open(),
            close@ == heading_close(),
            done.len() == count,
            lines(text@) == done + lines(text@.skip(at as int)),
            blocks_of(done) == Ok::<Seq<BlockText>, int>(
                block_texts(blocks@).push(
                    BlockText {
                        heading: match heading {
                            Some(h) => Some(h@),
                            None => None,
                        },
                        body: body@,
                    },
                ),
            ),
        decreases len - at,
    {
        let (end, next) = next_line(&text, at);
        let ghost line = text@.subrange(at as int, end as int);
        let ghost rest = lines(text@.skip(next as int));
        let ghost before = blocks_of(done)->Ok_0;
        proof {
            assert(done.push(line).drop_last() =~= done);
            assert(done + (seq![line] + rest) =~= done.push(line) + rest);
        }
        if starts_with(&text, at, end, &open) {
            match find(&text, at, end, &close) {
                None => {
                    proof {
                        lemma_blocks_error_persists(done.push(line), rest);
                    }
                    return Err(count);
                },
                Some(found) => {
                    proof {
                        lemma_first_occurrence(line, heading_close());
                        lemma_close_behind_open(line, found as int);
                    }
                    blocks.push(SectionBlock { heading, body });
                    let mut h = String::new();
                    push_range(&mut h, &text, at + open.len(), at + found);
                    body = String::new();
                    push_range(&mut body, &text, at + found + close.len(), end);
                    heading = Some(h);
                    proof {
                        assert(block_texts(blocks@) =~= before);
                        assert(h@ =~= line.subrange(
                            heading_open().len() as int,
                            found as int,
                        ));
                        assert(body@ =~= line.skip(found + heading_close().len()));
                    }
                },
            }
        } else {
            push_range(&mut body, &text, at, end);
            proof {
                assert(before.drop_last() =~= block_texts(blocks@));
            }
        }
        proof {
            done = done.push(line);
        }
        at = next;
        count += 1;
    }
    proof {
        assert(text@.skip(len as int).len() == 0);
        assert(done + lines(text@.skip(len as int)) =~= done);
    }
    blocks.push(SectionBlock { heading, body });
    proof {
        assert(block_texts(blocks@) =~= blocks_of(done)->Ok_0);
    }
    Ok(blocks)
}

/// The sections for `blocks`, one after the other: each with its heading,
/// if it has one, and its body.
pub fn render_sections(blocks: &Vec<SectionBlock>) -> (markup: String)
    ensures
        markup@ == blocks_markup(block_texts(blocks@)),
{
    let ghost all = block_texts(blocks@);
    let ghost parts = Seq::new(all.len(), |i: int| block_markup(all[i]));
    let mut out = String::new();
    let n = blocks.len();
    let mut i: usize = 0;
    proof {
        assert(parts.take(0) =~= Seq::<Seq<char>>::empty());
    }
    while i < n
        invariant
            i <= n,
            n == blocks.len(),
            all == block_texts(blocks@),
            parts == Seq::new(all.len(), |i: int| block_markup(all[i])),
            out@ == concat(parts.take(i as int)),
        decreases n - i,
    {
        let block = &blocks[i];
        let ghost before = out@;
        out.append("<section>");
        match &block.heading {
            Some(h) => {
                out.append("<h3>");
                out.append(h.as_str());
                out.append("</h3>");
            },
            None => {},
        }
        out.append(block.body.as_str());
        out.append("</section>");
        proof {
            assert(parts.take(i + 1).drop_last() =~= parts.take(i as int));
            assert(parts.take(i + 1).last() == block_markup(all[i as int]));
            assert(all[i as int] == block@);
            assert(out@ =~= before + block_markup(block@));
        }
        i += 1;
    }
    proof {
        assert(parts.take(n as int) =~= parts);
    }
    out
}

/// Once a line has failed, more lines behind it change nothing.
pub proof fn lemma_blocks_error_persists(done: Seq<Seq<char>>, more: Seq<Seq<char>>)
    requires
        blocks_of(done) is Err,
    ensures
        blocks_of(done + more) == blocks_of(done),
    decreases more.len(),
{
    if more.len() == 0 {
        assert(done + more =~= done);
    } else {
        lemma_blocks_error_persists(done, more.drop_last());
        assert((done + more).drop_last() =~= done + more.drop_last());
    }
}

} // verus!
