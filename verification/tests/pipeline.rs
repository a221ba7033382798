use papers::batch::{BatchReport, Tally};
use papers::error::SourceError;
use papers::pipeline::{build_edition, Action, Edition, Event, Outcome, Phase, SourceRun};
use papers::Article;

fn articles() -> Vec<Article> {
    vec![
        Article::new("Forside", "red.", "i dag", "tekst\n<div class='h3'>Mere</div>tekst"),
        Article::new("", "", "", "annonce"),
    ]
}

/// Drives one source through the events given, as a driver would, and hands
/// back every action and the outcome.
fn drive(name: &str, events: Vec<Event>) -> (Vec<Action>, Option<Outcome>) {
    let mut run = SourceRun::new(name);
    let mut actions = Vec::new();
    for event in events {
        let action = run.step(event);
        if let Action::Finish(outcome) = action {
            actions.push(action);
            assert_eq!(run.phase(), Phase::Done);
            return (actions, Some(outcome));
        }
        actions.push(action);
    }
    (actions, None)
}

fn stored(actions: &[Action]) -> usize {
    actions.iter().filter(|a| matches!(a, Action::Store(_))).count()
}

#[test]
fn new_run_waits_for_the_database() {
    assert_eq!(SourceRun::new("Politiken").phase(), Phase::Locating);
}

#[test]
fn missing_database_skips_the_source() {
    let (actions, outcome) = drive("Politiken", vec![Event::DatabaseMissing]);
    assert_eq!(actions, vec![Action::Finish(Outcome::Skipped)]);
    assert_eq!(outcome, Some(Outcome::Skipped));
}

#[test]
fn empty_table_fails_with_empty_edition_and_stores_nothing() {
    let (actions, outcome) =
        drive("Politiken", vec![Event::DatabaseFound, Event::LatestIdentifier(None)]);
    assert_eq!(
        outcome,
        Some(Outcome::Failed { stage: Phase::Selecting, error: SourceError::EmptyEdition })
    );
    assert_eq!(actions[0], Action::QueryLatest);
    assert_eq!(actions.len(), 2);
    assert_eq!(stored(&actions), 0);
}

#[test]
fn short_identifier_fails_the_source() {
    let (actions, outcome) = drive(
        "Politiken",
        vec![Event::DatabaseFound, Event::LatestIdentifier(Some("1503".to_string()))],
    );
    assert_eq!(
        outcome,
        Some(Outcome::Failed { stage: Phase::Selecting, error: SourceError::MalformedIdentifier })
    );
    assert_eq!(stored(&actions), 0);
}

#[test]
fn whole_run_produces_an_edition() {
    let mut run = SourceRun::new("Politiken");
    assert_eq!(run.step(Event::DatabaseFound), Action::QueryLatest);
    assert_eq!(run.phase(), Phase::Selecting);
    assert_eq!(
        run.step(Event::LatestIdentifier(Some("ABC123XYZ".to_string()))),
        Action::QueryArticles("ABC123%".to_string())
    );
    assert_eq!(run.phase(), Phase::Fetching);
    assert_eq!(run.step(Event::Articles(articles())), Action::ReadClock);
    assert_eq!(run.phase(), Phase::Rendering);
    let expected = build_edition(&articles(), "Politiken", "2015-03-07").unwrap();
    assert_eq!(run.step(Event::Today("2015-03-07".to_string())), Action::Store(expected));
    assert_eq!(run.phase(), Phase::Storing);
    assert_eq!(run.step(Event::Stored), Action::Finish(Outcome::Produced));
    assert_eq!(run.phase(), Phase::Done);
}

#[test]
fn edition_holds_the_three_documents() {
    let e: Edition = build_edition(&articles(), "Politiken", "2015-03-07").unwrap();
    assert_eq!(e.title, "Politiken - 2015-03-07");
    assert_eq!(e.toc, papers::toc::render_toc(&articles()));
    assert_eq!(
        e.content,
        papers::document::render_document(&articles(), "Politiken - 2015-03-07").unwrap()
    );
    assert_eq!(
        e.manifest,
        papers::manifest::manifest_with_date("Politiken - 2015-03-07", "2015-03-07")
    );
}

#[test]
fn unclosed_heading_fails_the_edition() {
    let bad = vec![Article::new("a", "", "", "ok"), Article::new("b", "", "", "<div class='h3'>x")];
    assert_eq!(
        build_edition(&bad, "P", "d"),
        Err(SourceError::MarkupStructure { article: 1, line: 0 })
    );
    let (actions, outcome) = drive(
        "P",
        vec![
            Event::DatabaseFound,
            Event::LatestIdentifier(Some("150307-1".to_string())),
            Event::Articles(bad),
            Event::Today("2015-03-07".to_string()),
        ],
    );
    assert_eq!(
        outcome,
        Some(Outcome::Failed {
            stage: Phase::Rendering,
            error: SourceError::MarkupStructure { article: 1, line: 0 },
        })
    );
    assert_eq!(stored(&actions), 0);
}

#[test]
fn refused_query_fails_the_source_at_its_stage() {
    let (_, outcome) = drive("P", vec![Event::DatabaseFound, Event::QueryFailed]);
    assert_eq!(
        outcome,
        Some(Outcome::Failed { stage: Phase::Selecting, error: SourceError::Query })
    );
    let (_, outcome) = drive(
        "P",
        vec![
            Event::DatabaseFound,
            Event::LatestIdentifier(Some("150307-1".to_string())),
            Event::QueryFailed,
        ],
    );
    assert_eq!(
        outcome,
        Some(Outcome::Failed { stage: Phase::Fetching, error: SourceError::Query })
    );
}

#[test]
fn failing_clock_fails_the_source() {
    let (actions, outcome) = drive(
        "P",
        vec![
            Event::DatabaseFound,
            Event::LatestIdentifier(Some("150307-1".to_string())),
            Event::Articles(articles()),
            Event::ClockFailed,
        ],
    );
    assert_eq!(
        outcome,
        Some(Outcome::Failed { stage: Phase::Rendering, error: SourceError::Clock })
    );
    assert_eq!(stored(&actions), 0);
}

#[test]
fn failed_write_fails_the_source() {
    let (actions, outcome) = drive(
        "P",
        vec![
            Event::DatabaseFound,
            Event::LatestIdentifier(Some("150307-1".to_string())),
            Event::Articles(articles()),
            Event::Today("2015-03-07".to_string()),
            Event::StoreFailed,
        ],
    );
    assert_eq!(outcome, Some(Outcome::Failed { stage: Phase::Storing, error: SourceError::Io }));
    assert_eq!(stored(&actions), 1);
}

#[test]
fn unexpected_event_changes_nothing() {
    let mut run = SourceRun::new("P");
    assert_eq!(run.step(Event::Stored), Action::Ignore);
    assert_eq!(run.step(Event::Articles(articles())), Action::Ignore);
    assert_eq!(run.step(Event::QueryFailed), Action::Ignore);
    assert_eq!(run.phase(), Phase::Locating);
    assert_eq!(run.step(Event::DatabaseFound), Action::QueryLatest);
    assert_eq!(run.step(Event::DatabaseFound), Action::Ignore);
    assert_eq!(run.step(Event::DatabaseMissing), Action::Ignore);
    assert_eq!(run.phase(), Phase::Selecting);
}

#[test]
fn finished_run_ignores_every_event() {
    let mut run = SourceRun::new("P");
    assert_eq!(run.step(Event::DatabaseMissing), Action::Finish(Outcome::Skipped));
    assert_eq!(run.step(Event::DatabaseFound), Action::Ignore);
    assert_eq!(run.step(Event::DatabaseMissing), Action::Ignore);
    assert_eq!(run.phase(), Phase::Done);
}

#[test]
fn batch_of_a_missing_and_a_present_source() {
    let mut report = BatchReport::new();
    let mut editions = 0;
    let sources = vec![
        ("Politiken", vec![Event::DatabaseMissing]),
        (
            "Information",
            vec![
                Event::DatabaseFound,
                Event::LatestIdentifier(Some("150307-0001".to_string())),
                Event::Articles(articles()),
                Event::Today("2015-03-07".to_string()),
                Event::Stored,
            ],
        ),
    ];
    for (name, events) in sources {
        let (actions, outcome) = drive(name, events);
        editions += stored(&actions);
        report.record(outcome.unwrap());
    }
    assert_eq!(editions, 1);
    assert_eq!(report.tally(), Tally { produced: 1, skipped: 1, failed: 0 });
    assert_eq!(report.exit_code(), 0);
}

#[test]
fn failed_source_does_not_stop_the_batch() {
    let mut report = BatchReport::new();
    let runs = vec![
        vec![Event::DatabaseFound, Event::LatestIdentifier(None)],
        vec![
            Event::DatabaseFound,
            Event::LatestIdentifier(Some("150307-0001".to_string())),
            Event::Articles(articles()),
            Event::Today("2015-03-07".to_string()),
            Event::Stored,
        ],
        vec![Event::DatabaseMissing],
    ];
    for events in runs {
        let (_, outcome) = drive("x", events);
        report.record(outcome.unwrap());
    }
    assert_eq!(report.tally(), Tally { produced: 1, skipped: 1, failed: 1 });
    assert_eq!(report.exit_code(), 1);
}

#[test]
fn empty_batch_succeeds() {
    let report = BatchReport::new();
    assert_eq!(report.tally(), Tally { produced: 0, skipped: 0, failed: 0 });
    assert_eq!(report.exit_code(), 0);
}

#[test]
fn skipped_sources_are_no_failure() {
    let mut report = BatchReport::new();
    report.record(Outcome::Skipped);
    report.record(Outcome::Skipped);
    assert_eq!(report.tally(), Tally { produced: 0, skipped: 2, failed: 0 });
    assert_eq!(report.exit_code(), 0);
}
