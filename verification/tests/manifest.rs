use papers::manifest::{manifest_with_date, render_manifest, xml_escape};

fn template(title: &str, date: &str) -> String {
    format!("
<?xml version=\"1.0\" encoding=\"utf-8\"?>
<package xmlns=\"http://www.idpf.org/2007/opf\" version=\"2.0\" unique-identifier=\"{}\">
  <metadata xmlns:dc=\"http://purl.org/dc/elements/1.1/\" xmlns:opf=\"http://www.idpf.org/2007/opf\">
    <dc:title>{}</dc:title>
    <dc:language>da-dk</dc:language>
    <dc:creator>Andreas H. From</dc:creator>
    <dc:publisher>{}</dc:publisher>
    <dc:subject>Newspaper</dc:subject>
    <dc:date>{}</dc:date>
  </metadata>
  <manifest>
    <item id=\"toc\" properties=\"nav\" href=\"{}\" media-type=\"text/html\"/>
    <item id=\"content\" media-type=\"text/html\" href=\"{}\"></item>
  </manifest>
  <spine toc=\"toc\">
    <itemref idref=\"toc\"/>
    <itemref idref=\"content\"/>
  </spine>
  <guide>
    <reference type=\"toc\" title=\"Table of Contents\" href=\"toc.html\"></reference>
  </guide>
</package>",
        title, title, title, date, "toc.html", "content.html")
}

#[test]
fn manifest_in_full() {
    assert_eq!(
        manifest_with_date("Politiken - 2015-03-07", "2015-03-07"),
        template("Politiken - 2015-03-07", "2015-03-07")
    );
}

#[test]
fn manifest_lists_navigation_before_content() {
    let m = manifest_with_date("t", "d");
    assert_eq!(m.matches("<item ").count(), 2);
    assert_eq!(m.matches("<itemref ").count(), 2);
    let toc = m.find("<itemref idref=\"toc\"/>").unwrap();
    let content = m.find("<itemref idref=\"content\"/>").unwrap();
    assert!(toc < content);
    assert!(m.contains("<reference type=\"toc\""));
}

#[test]
fn manifest_escapes_title_and_date() {
    assert_eq!(
        manifest_with_date("R&D <\"daily\">", "'today'"),
        template("R&amp;D &lt;&quot;daily&quot;&gt;", "&apos;today&apos;")
    );
}

#[test]
fn escape_replaces_the_five_reserved_characters() {
    assert_eq!(xml_escape("&"), "&amp;");
    assert_eq!(xml_escape("<"), "&lt;");
    assert_eq!(xml_escape(">"), "&gt;");
    assert_eq!(xml_escape("\""), "&quot;");
    assert_eq!(xml_escape("'"), "&apos;");
    assert_eq!(xml_escape("a<b>&\"c'"), "a&lt;b&gt;&amp;&quot;c&apos;");
}

#[test]
fn escape_keeps_other_text() {
    assert_eq!(xml_escape(""), "");
    assert_eq!(xml_escape("Blåbærgrød - 2015-03-07;#%"), "Blåbærgrød - 2015-03-07;#%");
}

#[test]
fn escape_escapes_what_is_escaped_already() {
    assert_eq!(xml_escape("&amp;"), "&amp;amp;");
}

#[test]
fn manifest_of_today_holds_todays_date() {
    let before = papers::clock::today().unwrap();
    let m = render_manifest("Information").unwrap();
    let after = papers::clock::today().unwrap();
    assert!(m == template("Information", &before) || m == template("Information", &after));
}
