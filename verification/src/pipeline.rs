//! One source from database to edition, as a sequence of decisions. The
//! caller does the outside work (looking for the database, running queries,
//! reading the clock, writing files) and reports each result as an event; the
//! run answers with what to do next.

use vstd::prelude::*;
use crate::article::{Article, ArticleText, texts};
use crate::clock::{edition_title, title_edition};
use crate::document::{content_document, render_document};
use crate::edition::{pattern_of, refid_pattern};
use crate::error::SourceError;
use crate::manifest::{manifest_document, manifest_with_date};
use crate::toc::{render_toc, toc_document};

verus! {

/// The documents of one edition, ready to be written and compiled.
#[derive(Debug, Clone, PartialEq, Eq)]
pub struct Edition {
    /// Title of the edition; it names the compiled artifact.
    pub title: String,
    /// The navigation document.
    pub toc: String,
    /// The content document.
    pub content: String,
    /// The manifest.
    pub manifest: String,
}

/// What an edition holds, as plain character sequences.
pub struct EditionText {
    pub title: Seq<char>,
    pub toc: Seq<char>,
    pub content: Seq<char>,
    pub manifest: Seq<char>,
}

impl View for Edition {
    type V = EditionText;

    open spec fn view(&self) -> EditionText {
        EditionText {
            title: self.title@,
            toc: self.toc@,
            content: self.content@,
            manifest: self.manifest@,
        }
    }
}

/// The edition of the paper `name` that appeared on `date` with the given
/// articles, or the first heading line without closing tag.
pub open spec fn edition_of(articles: Seq<ArticleText>, name: Seq<char>, date: Seq<char>) -> Result<
    EditionText,
    (int, int),
> {
    let title = edition_title(name, date);
    match content_document(articles, title) {
        Ok(content) => Ok(
            EditionText {
                title,
                toc: toc_document(articles),
                content,
                manifest: manifest_document(title, date),
            },
        ),
        Err(e) => Err(e),
    }
}

/// The three documents of the edition of the paper `name` that appeared on
/// `date`, all of them or none: one heading line without closing tag fails
/// the whole edition.
pub fn build_edition(articles: &Vec<Article>, name: &str, date: &str) -> (r: Result<
    Edition,
    SourceError,
>)
    ensures
        match edition_of(texts(articles@), name@, date@) {
            Ok(e) => r is Ok && r->Ok_0@ == e,
            Err(at) => r matches Err(SourceError::MarkupStructure { article, line }) && article
                == at.0 && line == at.1,
        },
{
    let title = title_edition(name, date);
    match render_document(articles, title.as_str()) {
        Ok(content) => {
            let toc = render_toc(articles);
            let manifest = manifest_with_date(title.as_str(), date);
            Ok(Edition { title, toc, content, manifest })
        },
        Err(e) => Err(SourceError::MarkupStructure { article: e.article, line: e.line }),
    }
}

/// How far the work on a source has come: what the run waits for.
#[derive(Debug, Clone, Copy, PartialEq, Eq)]
pub enum Phase {
    /// Waiting to learn whether the source's database is there.
    Locating,
    /// Waiting for the identifier of the most recent article.
    Selecting,
    /// Waiting for the articles of the edition.
    Fetching,
    /// Waiting for today's date, to render the edition.
    Rendering,
    /// Waiting for the documents to be written and compiled.
    Storing,
    /// Nothing more to do.
    Done,
}

/// How the work on a source ended.
#[derive(Debug, Clone, Copy, PartialEq, Eq)]
pub enum Outcome {
    /// An edition was written and compiled.
    Produced,
    /// The source has no database; it was passed over.
    Skipped,
    /// The source failed at `stage`; nothing was produced for it.
    Failed { stage: Phase, error: SourceError },
}

/// What the outside work on a source reported.
#[derive(Debug, Clone, PartialEq, Eq)]
pub enum Event {
    /// The source's database file does not exist.
    DatabaseMissing,
    /// The source's database file exists.
    DatabaseFound,
    /// The latest-identifier query ran; it gave this identifier, or no row.
    LatestIdentifier(Option<String>),
    /// The article query ran; it gave these rows, in this order.
    Articles(Vec<Article>),
    /// The database could not be opened or refused the query.
    QueryFailed,
    /// The clock was read; this is today's date.
    Today(String),
    /// The clock gave no date.
    ClockFailed,
    /// The documents were written and the compiled edition is in place.
    Stored,
    /// Writing, compiling or moving failed.
    StoreFailed,
}

/// What the caller is to do next.
#[derive(Debug, Clone, PartialEq, Eq)]
pub enum Action {
    /// Run the source's latest-identifier query.
    QueryLatest,
    /// Run the source's article query with this pattern as its parameter.
    QueryArticles(String),
    /// Read today's date.
    ReadClock,
    /// Write the documents of this edition and compile them.
    Store(Edition),
    /// Stop: the work on this source has ended so.
    Finish(Outcome),
    /// The event was not what the run waits for; the run has not moved.
    Ignore,
}

/// An action, as plain values.
pub enum ActionText {
    QueryLatest,
    QueryArticles(Seq<char>),
    ReadClock,
    Store(EditionText),
    Finish(Outcome),
    Ignore,
}

impl View for Action {
    type V = ActionText;

    open spec fn view(&self) -> ActionText {
        match self {
            Action::QueryLatest => ActionText::QueryLatest,
            Action::QueryArticles(pattern) => ActionText::QueryArticles(pattern@),
            Action::ReadClock => ActionText::ReadClock,
            Action::Store(edition) => ActionText::Store(edition@),
            Action::Finish(outcome) => ActionText::Finish(*outcome),
            Action::Ignore => ActionText::Ignore,
        }
    }
}

/// The work on one source.
pub struct SourceRun {
    phase: Phase,
    name: String,
    articles: Vec<Article>,
}

/// A run, as plain values: its phase, the name of the paper, and the articles
/// it holds (none before they are fetched).
pub struct RunText {
    pub phase: Phase,
    pub name: Seq<char>,
    pub articles: Seq<ArticleText>,
}

impl View for SourceRun {
    type V = RunText;

    closed spec fn view(&self) -> RunText {
        RunText { phase: self.phase, name: self.name@, articles: texts(self.articles@) }
    }
}

/// The latest identifier that an event carries, as plain characters.
pub open spec fn latest_text(latest: Option<String>) -> Option<Seq<char>> {
    match latest {
        Some(refid) => Some(refid@),
        None => None,
    }
}

/// The run after `event`, and the action that answers it.
///
/// A missing database ends the run as skipped. An empty table, a short
/// identifier, a refused query, a heading line without closing tag, a
/// failing clock and a failed write each end it as failed, at the phase in
/// which they came up. An event that the phase does not wait for changes
/// nothing.
pub open spec fn transition(run: RunText, event: Event) -> (RunText, ActionText) {
    let ended = RunText { phase: Phase::Done, ..run };
    match (run.phase, event) {
        (Phase::Locating, Event::DatabaseMissing) => (
            ended,
            ActionText::Finish(Outcome::Skipped),
        ),
        (Phase::Locating, Event::DatabaseFound) => (
            RunText { phase: Phase::Selecting, ..run },
            ActionText::QueryLatest,
        ),
        (Phase::Selecting, Event::LatestIdentifier(latest)) => match pattern_of(
            latest_text(latest),
        ) {
            Ok(pattern) => (
                RunText { phase: Phase::Fetching, ..run },
                ActionText::QueryArticles(pattern),
            ),
            Err(error) => (
                ended,
                ActionText::Finish(Outcome::Failed { stage: Phase::Selecting, error }),
            ),
        },
        (Phase::Selecting, Event::QueryFailed) => (
            ended,
            ActionText::Finish(
                Outcome::Failed { stage: Phase::Selecting, error: SourceError::Query },
            ),
        ),
        (Phase::Fetching, Event::Articles(rows)) => (
            RunText { phase: Phase::Rendering, articles: texts(rows@), ..run },
            ActionText::ReadClock,
        ),
        (Phase::Fetching, Event::QueryFailed) => (
            ended,
            ActionText::Finish(
                Outcome::Failed { stage: Phase::Fetching, error: SourceError::Query },
            ),
        ),
        (Phase::Rendering, Event::Today(date)) => match edition_of(run.articles, run.name, date@) {
            Ok(edition) => (RunText { phase: Phase::Storing, ..run }, ActionText::Store(edition)),
            Err(at) => (
                ended,
                ActionText::Finish(
                    Outcome::Failed {
                        stage: Phase::Rendering,
                        error: SourceError::MarkupStructure {
                            article: at.0 as usize,
                            line: at.1 as usize,
                        },
                    },
                ),
            ),
        },
        (Phase::Rendering, Event::ClockFailed) => (
            ended,
            ActionText::Finish(
                Outcome::Failed { stage: Phase::Rendering, error: SourceError::Clock },
            ),
        ),
        (Phase::Storing, Event::Stored) => (ended, ActionText::Finish(Outcome::Produced)),
        (Phase::Storing, Event::StoreFailed) => (
            ended,
            ActionText::Finish(Outcome::Failed { stage: Phase::Storing, error: SourceError::Io }),
        ),
        _ => (run, ActionText::Ignore),
    }
}

/// A run that has ended stays ended: whatever is reported to it, it does not
/// move and asks for nothing.
pub proof fn lemma_done_is_final(run: RunText, event: Event)
    requires
        run.phase == Phase::Done,
    ensures
        transition(run, event) == (run, ActionText::Ignore),
{
}

/// A run ends exactly when it says so, and it says how.
pub proof fn lemma_finish_ends_the_run(run: RunText, event: Event)
    ensures
        transition(run, event).1 is Finish <==> run.phase != Phase::Done && transition(
            run,
            event,
        ).0.phase == Phase::Done,
{
}

/// An empty table ends the run without an edition: the run fails with
/// `EmptyEdition` and, being ended, never asks to store anything.
pub proof fn lemma_empty_table_ends_the_run(run: RunText, later: Event)
    requires
        run.phase == Phase::Selecting,
    ensures
        ({
            let (ended, action) = transition(run, Event::LatestIdentifier(None));
            &&& action == ActionText::Finish(
                Outcome::Failed { stage: Phase::Selecting, error: SourceError::EmptyEdition },
            )
            &&& ended.phase == Phase::Done
            &&& transition(ended, later) == (ended, ActionText::Ignore)
        }),
{
}

/// An edition is stored only when everything before went well: the run asks
/// to store only in answer to the date, and then the edition of the articles
/// that were fetched, in their order.
pub proof fn lemma_store_is_the_edition(run: RunText, event: Event)
    requires
        transition(run, event).1 is Store,
    ensures
        run.phase == Phase::Rendering,
        event matches Event::Today(date) && edition_of(run.articles, run.name, date@) == Ok::<
            EditionText,
            (int, int),
        >(transition(run, event).1->Store_0),
{
}

impl SourceRun {
    /// A run for the paper `name`, waiting to learn whether its database is
    /// there.
    pub fn new(name: &str) -> (run: SourceRun)
        ensures
            run@ == (RunText { phase: Phase::Locating, name: name@, articles: Seq::empty() }),
    {
        let run = SourceRun {
            phase: Phase::Locating,
            name: name.to_owned(),
            articles: Vec::new(),
        };
        proof {
            assert(texts(run.articles@) =~= Seq::<ArticleText>::empty());
        }
        run
    }

    /// What the run waits for.
    pub fn phase(&self) -> (phase: Phase)
        ensures
            phase == self@.phase,
    {
        self.phase
    }

    /// Takes the report of the outside work and says what to do next.
    pub fn step(&mut self, event: Event) -> (action: Action)
        ensures
            (final(self)@, action@) == transition(old(self)@, event),
    {
        match (self.phase, event) {
            (Phase::Locating, Event::DatabaseMissing) => {
                self.phase = Phase::Done;
                Action::Finish(Outcome::Skipped)
            },
            (Phase::Locating, Event::DatabaseFound) => {
                self.phase = Phase::Selecting;
                Action::QueryLatest
            },
            (Phase::Selecting, Event::LatestIdentifier(latest)) => {
                let found = match &latest {
                    Some(refid) => refid_pattern(Some(refid.as_str())),
                    None => refid_pattern(None),
                };
                match found {
                    Ok(pattern) => {
                        self.phase = Phase::Fetching;
                        Action::QueryArticles(pattern)
                    },
                    Err(error) => {
                        self.phase = Phase::Done;
                        Action::Finish(Outcome::Failed { stage: Phase::Selecting, error })
                    },
                }
            },
            (Phase::Selecting, Event::QueryFailed) => {
                self.phase = Phase::Done;
                Action::Finish(
                    Outcome::Failed { stage: Phase::Selecting, error: SourceError::Query },
                )
            },
            (Phase::Fetching, Event::Articles(rows)) => {
                self.phase = Phase::Rendering;
                self.articles = rows;
                Action::ReadClock
            },
            (Phase::Fetching, Event::QueryFailed) => {
                self.phase = Phase::Done;
                Action::Finish(
                    Outcome::Failed { stage: Phase::Fetching, error: SourceError::Query },
                )
            },
            (Phase::Rendering, Event::Today(date)) => {
                match build_edition(&self.articles, self.name.as_str(), date.as_str()) {
                    Ok(edition) => {
                        self.phase = Phase::Storing;
                        Action::Store(edition)
                    },
                    Err(error) => {
                        self.phase = Phase::Done;
                        Action::Finish(Outcome::Failed { stage: Phase::Rendering, error })
                    },
                }
            },
            (Phase::Rendering, Event::ClockFailed) => {
                self.phase = Phase::Done;
                Action::Finish(
                    Outcome::Failed { stage: Phase::Rendering, error: SourceError::Clock },
                )
            },
            (Phase::Storing, Event::Stored) => {
                self.phase = Phase::Done;
                Action::Finish(Outcome::Produced)
            },
            (Phase::Storing, Event::StoreFailed) => {
                self.phase = Phase::Done;
                Action::Finish(Outcome::Failed { stage: Phase::Storing, error: SourceError::Io })
            },
            _ => Action::Ignore,
        }
    }
}

} // verus!
