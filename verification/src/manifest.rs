//! The manifest builder: the package description that the compiler reads.

use vstd::prelude::*;
use vstd::string::StringExecFns;
use crate::clock::{date_text, names_a_day, today, Day};
use crate::error::SourceError;
use crate::text::{chars_of, push_char};
use crate::toc::{CONTENT_FILE, TOC_FILE};

verus! {

/// What stands for the character `c` in XML text and attribute values.
pub open spec fn escaped_char(c: char) -> Seq<char> {
    if c == '&' {
        "&amp;"@
    } else if c == '<' {
        "&lt;"@
    } else if c == '>' {
        "&gt;"@
    } else if c == '"' {
        "&quot;"@
    } else if c == '\'' {
        "&apos;"@
    } else {
        seq![c]
    }
}

/// Whether `c` has a meaning of its own in XML and so cannot stand for itself.
pub open spec fn is_reserved(c: char) -> bool {
    c == '&' || c == '<' || c == '>' || c == '"' || c == '\''
}

/// `s` with every reserved character replaced by what stands for it.
pub open spec fn xml_escaped(s: Seq<char>) -> Seq<char>
    decreases s.len(),
{
    if s.len() == 0 {
        Seq::empty()
    } else {
        xml_escaped(s.drop_last()) + escaped_char(s.last())
    }
}

/// Escaped text holds no angle bracket and no quote, and text without
/// reserved characters is left as it is.
pub proof fn lemma_xml_escaped(s: Seq<char>)
    ensures
        forall|i: int|
            0 <= i < xml_escaped(s).len() ==> {
                let c = #[trigger] xml_escaped(s)[i];
                c != '<' && c != '>' && c != '"' && c != '\''
            },
        (forall|i: int| 0 <= i < s.len() ==> !is_reserved(#[trigger] s[i])) ==> xml_escaped(s)
            == s,
    decreases s.len(),
{
    reveal_strlit("&amp;");
    reveal_strlit("&lt;");
    reveal_strlit("&gt;");
    reveal_strlit("&quot;");
    reveal_strlit("&apos;");
    if s.len() > 0 {
        let front = s.drop_last();
        lemma_xml_escaped(front);
        let head = xml_escaped(front);
        let tail = escaped_char(s.last());
        assert forall|i: int| 0 <= i < xml_escaped(s).len() implies {
            let c = #[trigger] xml_escaped(s)[i];
            c != '<' && c != '>' && c != '"' && c != '\''
        } by {
            if i < head.len() {
                assert(xml_escaped(s)[i] == head[i]);
            } else {
                assert(xml_escaped(s)[i] == tail[i - head.len()]);
            }
        }
        if forall|i: int| 0 <= i < s.len() ==> !is_reserved(#[trigger] s[i]) {
            assert forall|i: int| 0 <= i < front.len() implies !is_reserved(
                #[trigger] front[i],
            ) by {
                assert(front[i] == s[i]);
            }
            assert(!is_reserved(s[s.len() - 1]));
            assert(xml_escaped(s) =~= s);
        }
    }
}

/// Appends `text` to `out`, escaped for XML.
pub(crate) fn push_escaped(out: &mut String, text: &str)
    ensures
        final(out)@ == old(out)@ + xml_escaped(text@),
{
    let chars = chars_of(text);
    let n = chars.len();
    let mut i: usize = 0;
    proof {
        assert(out@ =~= old(out)@ + xml_escaped(chars@.take(0)));
    }
    while i < n
        invariant
            i <= n,
            n == chars.len(),
            out@ == old(out)@ + xml_escaped(chars@.take(i as int)),
        decreases n - i,
    {
        let c = chars[i];
        let ghost before = out@;
        if c == '&' {
            out.append("&amp;");
        } else if c == '<' {
            out.append("&lt;");
        } else if c == '>' {
            out.append("&gt;");
        } else if c == '"' {
            out.append("&quot;");
        } else if c == '\'' {
            out.append("&apos;");
        } else {
            push_char(out, c);
        }
        proof {
            let upto = chars@.take(i + 1);
            assert(upto.drop_last() =~= chars@.take(i as int));
            assert(upto.last() == c);
            assert(out@ =~= before + escaped_char(c));
            assert(out@ =~= old(out)@ + xml_escaped(upto));
        }
        i += 1;
    }
    proof {
        assert(chars@.take(n as int) =~= text@);
    }
}

/// `text` escaped for XML: `&amp;`, `&lt;`, `&gt;`, `&quot;` and `&apos;` for
/// the five reserved characters, every other character as it is.
pub fn xml_escape(text: &str) -> (escaped: String)
    ensures
        escaped@ == xml_escaped(text@),
{
    let mut out = String::new();
    push_escaped(&mut out, text);
    out
}

/// The manifest up to the package identifier.
pub const OPF_OPEN: &'static str =
    "\n<?xml version=\"1.0\" encoding=\"utf-8\"?>\n<package xmlns=\"http://www.idpf.org/2007/opf\" version=\"2.0\" unique-identifier=\"";

/// From the package identifier to the title.
pub const OPF_TITLE: &'static str =
    "\">\n  <metadata xmlns:dc=\"http://purl.org/dc/elements/1.1/\" xmlns:opf=\"http://www.idpf.org/2007/opf\">\n    <dc:title>";

/// From the title to the publisher: language and creator.
pub const OPF_PUBLISHER: &'static str =
    "</dc:title>\n    <dc:language>da-dk</dc:language>\n    <dc:creator>Andreas H. From</dc:creator>\n    <dc:publisher>";

/// From the publisher to the date: the subject.
pub const OPF_DATE: &'static str =
    "</dc:publisher>\n    <dc:subject>Newspaper</dc:subject>\n    <dc:date>";

/// From the date to the file of the navigation item.
pub const OPF_TOC_ITEM: &'static str =
    "</dc:date>\n  </metadata>\n  <manifest>\n    <item id=\"toc\" properties=\"nav\" href=\"";

/// From the file of the navigation item to that of the content item.
pub const OPF_CONTENT_ITEM: &'static str =
    "\" media-type=\"text/html\"/>\n    <item id=\"content\" media-type=\"text/html\" href=\"";

/// What follows the items: the reading order and the guide.
pub const OPF_CLOSE: &'static str =
    "\"></item>\n  </manifest>\n  <spine toc=\"toc\">\n    <itemref idref=\"toc\"/>\n    <itemref idref=\"content\"/>\n  </spine>\n  <guide>\n    <reference type=\"toc\" title=\"Table of Contents\" href=\"toc.html\"></reference>\n  </guide>\n</package>";

/// The manifest of the edition titled `title` that appeared on `date`. The
/// title is the package's identifier, title and publisher; the navigation
/// and the content document are its two items, read in that order; the
/// guide points back at the navigation. Title and date are escaped.
pub open spec fn manifest_document(title: Seq<char>, date: Seq<char>) -> Seq<char> {
    OPF_OPEN@ + xml_escaped(title) + OPF_TITLE@ + xml_escaped(title) + OPF_PUBLISHER@
        + xml_escaped(title) + OPF_DATE@ + xml_escaped(date) + OPF_TOC_ITEM@ + TOC_FILE@
        + OPF_CONTENT_ITEM@ + CONTENT_FILE@ + OPF_CLOSE@
}

/// The manifest of the edition titled `title` that appeared on `date`.
pub fn manifest_with_date(title: &str, date: &str) -> (manifest: String)
    ensures
        manifest@ == manifest_document(title@, date@),
{
    let mut out = String::new();
    out.append(OPF_OPEN);
    push_escaped(&mut out, title);
    out.append(OPF_TITLE);
    push_escaped(&mut out, title);
    out.append(OPF_PUBLISHER);
    push_escaped(&mut out, title);
    out.append(OPF_DATE);
    push_escaped(&mut out, date);
    out.append(OPF_TOC_ITEM);
    out.append(TOC_FILE);
    out.append(OPF_CONTENT_ITEM);
    out.append(CONTENT_FILE);
    out.append(OPF_CLOSE);
    proof {
        assert(out@ =~= manifest_document(title@, date@));
    }
    out
}

/// The manifest of the edition titled `title`, dated today by the local
/// clock.
pub fn render_manifest(title: &str) -> (r: Result<String, SourceError>)
    ensures
        match r {
            Ok(manifest) => exists|day: Day|
                names_a_day(day) && manifest@ == manifest_document(title@, date_text(day)),
            Err(e) => e == SourceError::Clock,
        },
{
    match today() {
        Ok(date) => {
            let manifest = manifest_with_date(title, date.as_str());
            proof {
                let day = choose|day: Day| names_a_day(day) && date@ == date_text(day);
                assert(names_a_day(day) && manifest@ == manifest_document(
                    title@,
                    date_text(day),
                ));
            }
            Ok(manifest)
        },
        Err(e) => Err(e),
    }
}

} // verus!
