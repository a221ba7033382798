//! The data that a run works on: articles and the sources they come from.

use vstd::prelude::*;
use vstd::string::StringExecFns;

verus! {

/// One publication unit, as a row of a source's article table.
#[derive(Debug, Clone, PartialEq, Eq)]
pub struct Article {
    /// Display title; empty for filler entries, which get no navigation entry.
    pub title: String,
    /// Author attribution; may be empty.
    pub byline: String,
    /// Short summary, shown as a subheading.
    pub blurb: String,
    /// Raw body: markup fragments, with sub-heading markers at line starts.
    pub content: String,
}

/// What an article holds, as plain character sequences.
pub struct ArticleText {
    pub title: Seq<char>,
    pub byline: Seq<char>,
    pub blurb: Seq<char>,
    pub content: Seq<char>,
}

impl View for Article {
    type V = ArticleText;

    open spec fn view(&self) -> ArticleText {
        ArticleText {
            title: self.title@,
            byline: self.byline@,
            blurb: self.blurb@,
            content: self.content@,
        }
    }
}

/// The texts of a list of articles, in the same order.
pub open spec fn texts(articles: Seq<Article>) -> Seq<ArticleText> {
    Seq::new(articles.len(), |i: int| articles[i]@)
}

impl Article {
    /// An article with the given fields.
    pub fn new(title: &str, byline: &str, blurb: &str, content: &str) -> (article: Article)
        ensures
            article@ == (ArticleText {
                title: title@,
                byline: byline@,
                blurb: blurb@,
                content: content@,
            }),
    {
        Article {
            title: String::from_str(title),
            byline: String::from_str(byline),
            blurb: String::from_str(blurb),
            content: String::from_str(content),
        }
    }
}

/// A source of editions: one newspaper as one reader application stores it.
#[derive(Debug, Clone, PartialEq, Eq)]
pub struct Config {
    /// Human-readable name of the paper.
    pub name: String,
    /// Identifier of the application whose database holds the articles.
    pub app_id: String,
    /// Query for the articles of an edition; its one parameter is the
    /// pattern that the edition's identifiers match.
    pub select_stmt: String,
    /// Query for the identifier of the most recent article.
    pub refid_stmt: String,
}

/// What a source definition holds, as plain character sequences.
pub struct ConfigText {
    pub name: Seq<char>,
    pub app_id: Seq<char>,
    pub select_stmt: Seq<char>,
    pub refid_stmt: Seq<char>,
}

impl View for Config {
    type V = ConfigText;

    open spec fn view(&self) -> ConfigText {
        ConfigText {
            name: self.name@,
            app_id: self.app_id@,
            select_stmt: self.select_stmt@,
            refid_stmt: self.refid_stmt@,
        }
    }
}

impl Config {
    /// A source definition with the given fields.
    pub fn new(name: &str, app_id: &str, select_stmt: &str, refid_stmt: &str) -> (config: Config)
        ensures
            config@ == (ConfigText {
                name: name@,
                app_id: app_id@,
                select_stmt: select_stmt@,
                refid_stmt: refid_stmt@,
            }),
    {
        Config {
            name: String::from_str(name),
            app_id: String::from_str(app_id),
            select_stmt: String::from_str(select_stmt),
            refid_stmt: String::from_str(refid_stmt),
        }
    }
}

} // verus!
