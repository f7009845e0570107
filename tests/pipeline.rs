use tvdb::message::{Message, RecordKind};
use tvdb::parse::ParseError;
use tvdb::progress::{record_written, update_progress, ReadProgress};
use tvdb::reader::{process_item, ReaderStage};
use tvdb::title_basics::TitleBasics;
use tvdb::writer::{write_data, WorkerAction, WriterWorker};

const HEADER: &str = "tconst\ttitleType\tprimaryTitle\toriginalTitle\tisAdult\tstartYear\tendYear\truntimeMinutes\tgenres";

fn row(id: &str, kind: &str) -> String {
    format!("{}\t{}\tTitle {}\tOriginal {}\t0\t2000\t\\N\t30\tDrama", id, kind, id, id)
}

/// Feeds every line through one reader stage, collecting the messages sent.
fn read_all(lines: &[String]) -> (Result<(), ParseError>, Vec<Message>, ReadProgress) {
    let mut stage = ReaderStage::new();
    let mut sent = Vec::new();
    for line in lines {
        match stage.on_line(line) {
            Ok(Some(m)) => sent.push(m),
            Ok(None) => {}
            Err(e) => return (Err(e), sent, stage.progress()),
        }
    }
    sent.push(stage.finish());
    (Ok(()), sent, stage.progress())
}

/// Delivers messages round-robin to `workers` writers the way a shared queue
/// may, relaying completion, and returns the persisted batches and the total.
fn write_all(messages: Vec<Message>, workers: usize, batch_size: usize) -> (Vec<Vec<TitleBasics>>, u64) {
    let mut pool: Vec<WriterWorker> = (0..workers).map(|_| WriterWorker::new(batch_size)).collect();
    let mut running = vec![true; workers];
    let mut queue: std::collections::VecDeque<Message> = messages.into();
    let mut persisted = Vec::new();
    let mut count: u64 = 0;
    let mut next = 0;
    while running.iter().any(|r| *r) {
        let msg = match queue.pop_front() {
            Some(m) => m,
            None => break,
        };
        while !running[next] {
            next = (next + 1) % workers;
        }
        match pool[next].on_message(msg) {
            WorkerAction::Wait => {}
            WorkerAction::Write(b) => {
                record_written(&mut count, b.len());
                persisted.push(b);
            }
            WorkerAction::Finish(b) => {
                if let Some(b) = b {
                    record_written(&mut count, b.len());
                    persisted.push(b);
                }
                queue.push_back(Message::done(RecordKind::TitleBasics));
                running[next] = false;
            }
        }
        next = (next + 1) % workers;
    }
    assert!(running.iter().all(|r| !*r));
    (persisted, count)
}

#[test]
fn two_series_one_movie() {
    let lines = vec![
        HEADER.to_string(),
        row("tt1", "tvSeries"),
        row("tt2", "movie"),
        row("tt3", "tvSeries"),
    ];
    let (res, sent, progress) = read_all(&lines);
    assert!(res.is_ok());
    assert_eq!(progress.read, 3);
    assert_eq!(progress.selected, 2);
    assert_eq!(sent.len(), 3);
    let (persisted, written) = write_all(sent, 2, 1000);
    assert_eq!(written, 2);
    let mut records: Vec<TitleBasics> = persisted.into_iter().flatten().collect();
    records.sort_by(|a, b| a.tconst.cmp(&b.tconst));
    assert_eq!(records.len(), 2);
    assert_eq!(records[0], TitleBasics::parse_line(&lines[1]).unwrap());
    assert_eq!(records[1], TitleBasics::parse_line(&lines[3]).unwrap());
}

#[test]
fn short_line_aborts_reading() {
    let lines = vec![
        HEADER.to_string(),
        row("tt1", "tvSeries"),
        "tt2\ttvSeries\tx\tx\t0".to_string(),
        row("tt3", "tvSeries"),
    ];
    let (res, sent, progress) = read_all(&lines);
    assert_eq!(res, Err(ParseError::MalformedLine));
    assert_eq!(progress.read, 1);
    assert_eq!(progress.selected, 1);
    assert_eq!(sent.len(), 1);
}

#[test]
fn records_flushed_before_failure_stay() {
    let lines = vec![
        HEADER.to_string(),
        row("tt1", "tvSeries"),
        "tt2\ttvSeries\tx\tx\t0".to_string(),
    ];
    let (_, sent, _) = read_all(&lines);
    let mut worker = WriterWorker::new(1);
    let mut persisted = 0;
    for m in sent {
        if let WorkerAction::Write(b) = worker.on_message(m) {
            persisted += b.len();
        }
    }
    assert_eq!(persisted, 1);
}

#[test]
fn null_and_bad_numeric_fields() {
    let t = TitleBasics::parse_line("tt1\tmovie\tx\tx\t0\t\\N\t\\N\t\\N\t\\N").unwrap();
    assert_eq!(t.start_year, None);
    assert_eq!(
        TitleBasics::parse_line("tt1\tmovie\tx\tx\t0\tabc\t\\N\t\\N\t\\N"),
        Err(ParseError::InvalidNumber("abc".to_string()))
    );
}

#[test]
fn batch_of_one_two_workers() {
    let lines = vec![
        HEADER.to_string(),
        row("tt1", "tvSeries"),
        row("tt2", "tvSeries"),
        row("tt3", "tvSeries"),
    ];
    let (_, sent, progress) = read_all(&lines);
    assert_eq!(progress.selected, 3);
    let (persisted, written) = write_all(sent, 2, 1);
    assert_eq!(persisted.len(), 3);
    assert!(persisted.iter().all(|b| b.len() == 1));
    assert_eq!(written, 3);
}

#[test]
fn written_matches_selected_for_many_shapes() {
    let mut lines = vec![HEADER.to_string()];
    for i in 0..23 {
        let kind = if i % 3 == 0 { "movie" } else { "tvSeries" };
        lines.push(row(&format!("tt{}", i), kind));
    }
    let (res, sent, progress) = read_all(&lines);
    assert!(res.is_ok());
    assert_eq!(progress.read, 23);
    assert!(progress.selected <= progress.read);
    for workers in 1..5 {
        for batch in 1..7 {
            let (_, written) = write_all(sent.clone(), workers, batch);
            assert_eq!(written, progress.selected);
        }
    }
}

#[test]
fn header_only_file() {
    let (res, sent, progress) = read_all(&[HEADER.to_string()]);
    assert!(res.is_ok());
    assert_eq!(progress, ReadProgress { selected: 0, read: 0 });
    assert_eq!(sent, vec![Message::Done(RecordKind::TitleBasics)]);
    let (persisted, written) = write_all(sent, 3, 5);
    assert!(persisted.is_empty());
    assert_eq!(written, 0);
}

#[test]
fn process_item_selects_tv_series() {
    assert!(matches!(process_item(&row("tt1", "tvSeries")), Ok(Some(Message::TitleBasics(_)))));
    assert_eq!(process_item(&row("tt1", "tvMovie")), Ok(None));
    assert_eq!(process_item(&row("tt1", "tvseries")), Ok(None));
}

#[test]
fn progress_counters() {
    let mut p = ReadProgress::default();
    update_progress(&mut p, true);
    update_progress(&mut p, false);
    update_progress(&mut p, true);
    assert_eq!(p, ReadProgress { selected: 2, read: 3 });
}

#[test]
fn write_data_empties_batch() {
    let t = TitleBasics::parse_line(&row("tt1", "tvSeries")).unwrap();
    let mut v = vec![t.clone(), t.clone()];
    let out = write_data(&mut v);
    assert!(v.is_empty());
    assert_eq!(out, vec![t.clone(), t]);
}

#[test]
fn done_flushes_partial_batch() {
    let t = TitleBasics::parse_line(&row("tt1", "tvSeries")).unwrap();
    let mut w = WriterWorker::new(10);
    assert!(matches!(w.on_message(Message::title_basics(t.clone())), WorkerAction::Wait));
    match w.on_message(Message::done(RecordKind::TitleBasics)) {
        WorkerAction::Finish(Some(b)) => assert_eq!(b, vec![t]),
        _ => panic!("expected a final batch"),
    }
    let mut w2 = WriterWorker::new(10);
    assert!(matches!(w2.on_message(Message::done(RecordKind::TitleBasics)), WorkerAction::Finish(None)));
}

#[test]
fn chunk_reading_counts_data_lines() {
    let lines = vec![
        HEADER.to_string(),
        row("tt1", "tvSeries"),
        row("tt2", "short"),
        row("tt3", "tvSeries"),
        row("tt4", "tvSeries"),
    ];
    let mut stage = ReaderStage::new();
    let (out, res) = stage.on_lines(&lines);
    assert_eq!(res, Ok(()));
    assert_eq!(out.len(), 3);
    let ids: Vec<String> = out
        .iter()
        .map(|m| match m {
            Message::TitleBasics(t) => t.tconst.clone(),
            Message::Done(_) => String::new(),
        })
        .collect();
    assert_eq!(ids, vec!["tt1", "tt3", "tt4"]);
    assert_eq!(out[0], Message::TitleBasics(TitleBasics::parse_line(&lines[1]).unwrap()));
    assert_eq!(stage.progress(), ReadProgress { selected: 3, read: 4 });
    let more = vec![row("tt5", "movie"), row("tt6", "tvSeries")];
    let (out, res) = stage.on_lines(&more);
    assert_eq!(res, Ok(()));
    assert_eq!(out, vec![Message::TitleBasics(TitleBasics::parse_line(&more[1]).unwrap())]);
    assert_eq!(stage.progress(), ReadProgress { selected: 4, read: 6 });
}

#[test]
fn chunk_reading_stops_at_bad_line() {
    let lines = vec![
        HEADER.to_string(),
        row("tt1", "tvSeries"),
        "tt2\ttvSeries\tx\tx\t0\t19x9\t\\N\t\\N\t\\N".to_string(),
        row("tt3", "tvSeries"),
    ];
    let mut stage = ReaderStage::new();
    let (out, res) = stage.on_lines(&lines);
    assert_eq!(res, Err(ParseError::InvalidNumber("19x9".to_string())));
    assert_eq!(out, vec![Message::TitleBasics(TitleBasics::parse_line(&lines[1]).unwrap())]);
    assert_eq!(stage.progress(), ReadProgress { selected: 1, read: 1 });
}

#[test]
fn chunk_reading_short_line_keeps_earlier_records() {
    let lines = vec![
        HEADER.to_string(),
        row("tt1", "tvSeries"),
        row("tt2", "movie"),
        "tt3\ttvSeries\tx\tx\t0".to_string(),
        row("tt4", "tvSeries"),
    ];
    let mut stage = ReaderStage::new();
    let (out, res) = stage.on_lines(&lines);
    assert_eq!(res, Err(ParseError::MalformedLine));
    assert_eq!(out.len(), 1);
    assert_eq!(stage.progress(), ReadProgress { selected: 1, read: 2 });
}

#[test]
fn batch_size_zero_writes_each_record() {
    let t = TitleBasics::parse_line(&row("tt1", "tvSeries")).unwrap();
    let mut w = WriterWorker::new(0);
    match w.on_message(Message::title_basics(t.clone())) {
        WorkerAction::Write(b) => assert_eq!(b, vec![t]),
        _ => panic!("expected a batch of one"),
    }
}
