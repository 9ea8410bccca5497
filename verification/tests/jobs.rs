use calendar_assets::handler::{get, ArgError, HandlerKind};
use calendar_assets::overlay::worker::Worker as OverlayWorker;
use calendar_assets::overlay::{Item, Overlay};
use calendar_assets::preview::worker::Worker as PreviewWorker;
use calendar_assets::preview::{parse_ids, Preview};
use calendar_assets::receiver::{render_list, MissingIds, ReceiverAction, ReceiverEvent};
use calendar_assets::text::same_text;
use calendar_assets::url_handler::{is_success, HeadOutcome, UrlHandler};
use calendar_assets::worker::Worker as PlainWorker;

#[test]
fn decimal_text() {
    assert_eq!(render_list(&vec![0]), "[0]");
    assert_eq!(render_list(&vec![2024]), "[2024]");
    assert_eq!(render_list(&vec![u32::MAX]), "[4294967295]");
}

fn one_line(line: &str) -> Vec<u32> {
    parse_ids(&vec![line.to_string()])
}

#[test]
fn parsing_numbers() {
    assert_eq!(one_line("42"), vec![42]);
    assert_eq!(one_line("+7"), vec![7]);
    assert_eq!(one_line("007"), vec![7]);
    assert_eq!(one_line("4294967295"), vec![u32::MAX]);
    assert_eq!(one_line("4294967296"), Vec::<u32>::new());
    assert_eq!(one_line(""), Vec::<u32>::new());
    assert_eq!(one_line("+"), Vec::<u32>::new());
    assert_eq!(one_line("-1"), Vec::<u32>::new());
    assert_eq!(one_line(" 1"), Vec::<u32>::new());
    assert_eq!(one_line("1 "), Vec::<u32>::new());
    assert_eq!(one_line("1a"), Vec::<u32>::new());
    let p = Preview::new();
    assert_eq!(p.settings("m", "+10", false).ok().unwrap().concurrency, 10);
    assert_eq!(p.settings("m", "ten", false).err(), Some(ArgError::NumWorkers));
    assert_eq!(p.settings("m", "", false).err(), Some(ArgError::NumWorkers));
}

#[test]
fn comparing_text() {
    assert!(same_text("preview", "preview"));
    assert!(!same_text("preview", "Preview"));
    assert!(!same_text("", "x"));
}

#[test]
fn handler_selection() {
    assert_eq!(get(Some("preview")), Some(HandlerKind::Preview));
    assert_eq!(get(Some("overlay")), None);
    assert_eq!(get(Some("")), None);
    assert_eq!(get(None), None);
}

#[test]
fn preview_settings() {
    let p = Preview::new();
    let s = p.settings("wall", "10", true).ok().unwrap();
    assert_eq!(s.mounting_type, "wall");
    assert_eq!(s.concurrency, 10);
    assert!(s.refinement);
    assert_eq!(p.settings("wall", "x", false).err(), Some(ArgError::NumWorkers));
    assert_eq!(p.settings("wall", "-3", false).err(), Some(ArgError::NumWorkers));
}

#[test]
fn overlay_settings() {
    let o = Overlay::new();
    let s = o.settings("2024", "3", false).ok().unwrap();
    assert_eq!((s.year, s.concurrency, s.refinement), (2024, 3, false));
    assert_eq!(o.settings("twenty", "3", false).err(), Some(ArgError::Year));
    assert_eq!(o.settings("twenty", "x", false).err(), Some(ArgError::Year));
    assert_eq!(o.settings("2024", "x", false).err(), Some(ArgError::NumWorkers));
}

#[test]
fn ids_from_lines() {
    let lines: Vec<String> = ["12", "", "abc", "+5", " 7", "4294967296", "99"]
        .iter()
        .map(|s| s.to_string())
        .collect();
    assert_eq!(parse_ids(&lines), vec![12, 5, 99]);
    assert_eq!(parse_ids(&Vec::new()), Vec::<u32>::new());
}

#[test]
fn item_job() {
    let item = Item::new(3, "/p".to_string(), "h".to_string());
    assert_eq!(item.into_job(), (3, "/p".to_string(), "h".to_string()));
}

#[test]
fn workers_urls() {
    let w = PreviewWorker::new("wall".to_string(), true, 4);
    assert_eq!(w.concurrency(), 4);
    assert_eq!(w.job_urls(5), calendar_assets::url::build_urls(5, &"wall".to_string(), true));
    let o = OverlayWorker::new(2023, false, 2);
    assert_eq!(o.concurrency(), 2);
    assert_eq!(o.job_urls("/a".to_string(), "b".to_string()).len(), 66);
    let plain = PlainWorker::new("desk".to_string(), 1);
    assert_eq!(plain.concurrency(), 1);
    assert_eq!(plain.job_urls(9), calendar_assets::url::build_urls(9, &"desk".to_string(), false));
    assert_eq!(PlainWorker::report(9, HeadOutcome::Failed), Some(9));
    assert_eq!(PlainWorker::report(9, HeadOutcome::Status(404)), Some(9));
    assert_eq!(PlainWorker::report(9, HeadOutcome::Status(200)), None);
}

#[test]
fn success_statuses() {
    assert!(!is_success(199));
    assert!(is_success(200));
    assert!(is_success(204));
    assert!(is_success(299));
    assert!(!is_success(300));
    assert!(!is_success(404));
    assert!(!HeadOutcome::Status(200).is_failure());
    assert!(HeadOutcome::Status(500).is_failure());
    assert!(HeadOutcome::Failed.is_failure());
}

#[test]
fn handler_stops_after_failure() {
    let mut h = UrlHandler::new(17, false);
    assert_eq!(h.id(), 17);
    assert!(h.should_request());
    assert_eq!(h.record(HeadOutcome::Status(200)), None);
    assert!(h.should_request());
    assert_eq!(h.record(HeadOutcome::Status(404)), Some(17));
    assert!(!h.should_request());
    // a failure that was already under way still reports
    assert_eq!(h.record(HeadOutcome::Failed), Some(17));
    assert!(!h.should_request());
    let stopped = UrlHandler::new(1, true);
    assert!(!stopped.should_request());
}

#[test]
fn missing_ids_sorted_and_unique() {
    let mut m = MissingIds::new();
    assert!(m.insert(5));
    assert!(m.insert(1));
    assert!(!m.insert(5));
    assert!(m.insert(3));
    assert!(m.insert(u32::MAX));
    assert!(m.insert(0));
    assert_eq!(m.sorted(), vec![0, 1, 3, 5, u32::MAX]);
    assert_eq!(m.render(), "[0, 1, 3, 5, 4294967295]");
}

#[test]
fn missing_ids_order_does_not_matter() {
    let mut a = MissingIds::new();
    let mut b = MissingIds::new();
    for id in [9, 2, 9, 4, 2] {
        a.insert(id);
    }
    for id in [4, 4, 2, 9] {
        b.insert(id);
    }
    assert_eq!(a.sorted(), b.sorted());
    assert_eq!(a.render(), "[2, 4, 9]");
}

#[test]
fn receiver_events() {
    let mut m = MissingIds::new();
    assert_eq!(m.on_event(ReceiverEvent::Empty), ReceiverAction::Continue);
    assert_eq!(m.on_event(ReceiverEvent::Received(8)), ReceiverAction::Continue);
    assert_eq!(m.on_event(ReceiverEvent::Received(8)), ReceiverAction::Continue);
    assert_eq!(m.on_event(ReceiverEvent::Received(3)), ReceiverAction::Continue);
    assert_eq!(m.on_event(ReceiverEvent::Disconnected), ReceiverAction::Finish);
    assert_eq!(m.render(), "[3, 8]");
}

#[test]
fn empty_list_text() {
    assert_eq!(MissingIds::new().render(), "[]");
    assert_eq!(render_list(&vec![7]), "[7]");
    assert_eq!(render_list(&vec![1, 10, 100]), format!("{:?}", vec![1u32, 10, 100]));
}
