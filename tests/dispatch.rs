use subtrans::client::TranslationFailure;
use subtrans::dispatch::{chunk_count, Dispatcher, Entry, EntryFailure};

fn entry(text: &str, start: i64, end: i64) -> Entry {
    Entry { text: text.to_string(), start, end, coordinates: None }
}

/// Runs a dispatcher to its end against `service`, recording each chunk's
/// requested texts; returns the outcome and the chunks seen.
fn run(
    d: &mut Dispatcher,
    service: &dyn Fn(&str) -> Result<String, TranslationFailure>,
) -> (Result<(), EntryFailure>, Vec<Vec<String>>) {
    let mut chunks = Vec::new();
    while !d.is_done() {
        let requests = d.requests();
        let mut seen = Vec::new();
        let mut answered = Vec::new();
        // answers arrive in reverse order, as a race on the wire may have it
        for req in requests.iter().rev() {
            seen.push(req.text.clone());
            answered.push((req.index, service(&req.text)));
        }
        seen.reverse();
        chunks.push(seen);
        let results = d.slot_outcomes(answered);
        if let Err(e) = d.complete_chunk(results) {
            return (Err(e), chunks);
        }
    }
    (Ok(()), chunks)
}

fn french(s: &str) -> Result<String, TranslationFailure> {
    match s {
        "Hello" => Ok("Bonjour".to_string()),
        "World" => Ok("Monde".to_string()),
        other => Ok(format!("fr:{other}")),
    }
}

#[test]
fn end_to_end_hello_world() {
    let entries = vec![entry("Hello", 0, 1000), entry("", 1000, 2000), entry("World", 2000, 3000)];
    let mut d = Dispatcher::new(entries, 2);
    let (r, chunks) = run(&mut d, &french);
    assert!(r.is_ok());
    assert_eq!(chunks, vec![vec!["Hello".to_string()], vec!["World".to_string()]]);
    let calls: usize = chunks.iter().map(|c| c.len()).sum();
    assert_eq!(calls, 2);
    assert_eq!(d.chunk_index(), 2);
    let out = d.into_entries();
    let texts: Vec<&str> = out.iter().map(|e| e.text.as_str()).collect();
    assert_eq!(texts, vec!["Bonjour", "", "Monde"]);
    let times: Vec<(i64, i64)> = out.iter().map(|e| (e.start, e.end)).collect();
    assert_eq!(times, vec![(0, 1000), (1000, 2000), (2000, 3000)]);
}

#[test]
fn order_kept_with_coordinates() {
    let mut entries = Vec::new();
    for i in 0..7i64 {
        let mut e = entry(&format!("line {i}"), i * 10, i * 10 + 5);
        e.coordinates = Some(format!("X1:{i}"));
        entries.push(e);
    }
    let mut d = Dispatcher::new(entries, 3);
    let (r, _) = run(&mut d, &french);
    assert!(r.is_ok());
    for (i, e) in d.entries().iter().enumerate() {
        assert_eq!(e.text, format!("fr:line {i}"));
        assert_eq!(e.start, i as i64 * 10);
        assert_eq!(e.end, i as i64 * 10 + 5);
        assert_eq!(e.coordinates, Some(format!("X1:{i}")));
    }
}

#[test]
fn empty_lines_are_never_sent() {
    let entries = vec![entry("", 0, 1), entry("", 1, 2), entry("", 2, 3)];
    let mut d = Dispatcher::new(entries, 2);
    let (r, chunks) = run(&mut d, &|_| Err(TranslationFailure::Transport("unreachable".to_string())));
    assert!(r.is_ok());
    assert!(chunks.iter().all(|c| c.is_empty()));
    assert!(d.entries().iter().all(|e| e.text.is_empty()));
}

#[test]
fn chunk_count_rounds_up() {
    assert_eq!(chunk_count(0, 5), 0);
    assert_eq!(chunk_count(1, 5), 1);
    assert_eq!(chunk_count(5, 5), 1);
    assert_eq!(chunk_count(6, 5), 2);
    assert_eq!(chunk_count(10, 3), 4);
    assert_eq!(chunk_count(usize::MAX, 1), usize::MAX);
    assert_eq!(chunk_count(usize::MAX, usize::MAX), 1);
}

#[test]
fn barriers_match_chunk_count() {
    for n in 0..12usize {
        for k in 1..6usize {
            let entries = (0..n).map(|i| entry(&format!("t{i}"), 0, 1)).collect();
            let mut d = Dispatcher::new(entries, k);
            let (r, chunks) = run(&mut d, &french);
            assert!(r.is_ok());
            assert_eq!(chunks.len(), chunk_count(n, k));
            assert_eq!(d.chunk_index(), chunk_count(n, k));
            for c in &chunks {
                assert!(c.len() <= k);
            }
        }
    }
}

#[test]
fn empty_input_is_done_at_once() {
    let d = Dispatcher::new(Vec::new(), 5);
    assert!(d.is_done());
    assert_eq!(d.chunk_bounds(), (0, 0));
    assert!(d.requests().is_empty());
}

#[test]
fn failure_stops_the_run_and_keeps_the_chunk() {
    let entries = vec![
        entry("a", 0, 1),
        entry("b", 1, 2),
        entry("c", 2, 3),
        entry("bad", 3, 4),
        entry("e", 4, 5),
        entry("f", 5, 6),
    ];
    let mut d = Dispatcher::new(entries, 3);
    let service = |s: &str| {
        if s == "bad" {
            Err(TranslationFailure::Remote("no such language".to_string()))
        } else {
            Ok(s.to_uppercase())
        }
    };
    let (r, chunks) = run(&mut d, &service);
    let f = r.unwrap_err();
    assert_eq!(f.chunk, 1);
    assert_eq!(f.line, 3);
    assert!(matches!(f.cause, TranslationFailure::Remote(ref m) if m == "no such language"));
    assert_eq!(chunks.len(), 2);
    assert!(d.has_failed());
    assert!(!d.is_done());
    assert!(d.requests().is_empty());
    let texts: Vec<&str> = d.entries().iter().map(|e| e.text.as_str()).collect();
    assert_eq!(texts, vec!["A", "B", "C", "bad", "e", "f"]);
}

#[test]
fn first_failing_slot_wins() {
    let entries = vec![entry("x", 0, 1), entry("y", 1, 2), entry("z", 2, 3)];
    let mut d = Dispatcher::new(entries, 3);
    let results = vec![
        Ok("X".to_string()),
        Err(TranslationFailure::Transport("refused".to_string())),
        Err(TranslationFailure::Remote("later".to_string())),
    ];
    let f = d.complete_chunk(results).unwrap_err();
    assert_eq!(f.line, 1);
    assert_eq!(f.chunk, 0);
    assert!(matches!(f.cause, TranslationFailure::Transport(ref m) if m == "refused"));
    let texts: Vec<&str> = d.entries().iter().map(|e| e.text.as_str()).collect();
    assert_eq!(texts, vec!["x", "y", "z"]);
}

#[test]
fn failure_in_an_empty_slot_is_ignored() {
    let entries = vec![entry("", 0, 1), entry("y", 1, 2)];
    let mut d = Dispatcher::new(entries, 2);
    let results = vec![Err(TranslationFailure::Malformed), Ok("Y".to_string())];
    assert!(d.complete_chunk(results).is_ok());
    assert!(d.is_done());
    let texts: Vec<&str> = d.entries().iter().map(|e| e.text.as_str()).collect();
    assert_eq!(texts, vec!["", "Y"]);
}

#[test]
fn requests_cover_current_chunk_only() {
    let entries = vec![entry("a", 0, 1), entry("", 1, 2), entry("c", 2, 3), entry("d", 3, 4)];
    let d = Dispatcher::new(entries, 3);
    assert_eq!(d.chunk_size(), 3);
    assert_eq!(d.chunk_bounds(), (0, 3));
    let reqs = d.requests();
    let got: Vec<(usize, &str)> = reqs.iter().map(|r| (r.index, r.text.as_str())).collect();
    assert_eq!(got, vec![(0, "a"), (2, "c")]);
}

#[test]
fn outcomes_are_laid_out_by_position() {
    let entries = vec![entry("a", 0, 1), entry("b", 1, 2), entry("c", 2, 3), entry("d", 3, 4)];
    let mut d = Dispatcher::new(entries, 3);
    assert!(d.complete_chunk(vec![Ok("A".into()), Ok("B".into()), Ok("C".into())]).is_ok());
    assert_eq!(d.chunk_bounds(), (3, 4));
    let slots = d.slot_outcomes(vec![(0, Ok("stale".to_string())), (3, Ok("D".to_string()))]);
    assert_eq!(slots.len(), 1);
    assert_eq!(slots[0].as_ref().unwrap(), "D");
}

#[test]
fn unanswered_slots_are_empty_successes() {
    let entries = vec![entry("a", 0, 1), entry("", 1, 2), entry("c", 2, 3)];
    let d = Dispatcher::new(entries, 3);
    let slots = d.slot_outcomes(vec![(2, Err(TranslationFailure::Malformed)), (0, Ok("A".to_string()))]);
    assert_eq!(slots.len(), 3);
    assert_eq!(slots[0].as_ref().unwrap(), "A");
    assert_eq!(slots[1].as_ref().unwrap(), "");
    assert!(matches!(slots[2], Err(TranslationFailure::Malformed)));
}
