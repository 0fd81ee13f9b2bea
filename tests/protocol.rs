use media_tags::{pad_action, Batch, BusMessage, PadAction, Phase, Session, Step, TagError, TagMap, TagValue};

fn text(name: &str, value: &str) -> (String, TagValue) {
    (name.to_string(), TagValue::Text(value.to_string()))
}

fn started(path: &str) -> Session {
    let mut s = Session::new();
    s.begin(path.to_string());
    s
}

fn settled(step: Step) -> TagMap {
    match step {
        Step::Settled(t) => t,
        other => panic!("expected settled, got {:?}", other),
    }
}

fn failed(step: Step) -> TagError {
    match step {
        Step::Failed(e) => e,
        other => panic!("expected failure, got {:?}", other),
    }
}

#[test]
fn tag_map_insert_get_and_overwrite() {
    let mut m = TagMap::new();
    assert_eq!(m.len(), 0);
    assert_eq!(m.get("title"), None);
    m.insert("title".to_string(), "A".to_string());
    m.insert("artist".to_string(), "B".to_string());
    m.insert("title".to_string(), "C".to_string());
    assert_eq!(m.len(), 2);
    assert_eq!(m.get("title").map(|s| s.as_str()), Some("C"));
    assert_eq!(m.get("artist").map(|s| s.as_str()), Some("B"));
    assert_eq!(m.get("album"), None);
    let names: Vec<&str> = m.entries().iter().map(|(k, _)| k.as_str()).collect();
    assert_eq!(names, vec!["title", "artist"]);
}

#[test]
fn begin_points_source_at_path() {
    let mut s = Session::new();
    assert_eq!(s.phase(), Phase::Idle);
    assert_eq!(s.location(), None);
    s.begin("a.mp3".to_string());
    assert_eq!(s.phase(), Phase::Negotiating);
    assert_eq!(s.location().map(|p| p.as_str()), Some("a.mp3"));
}

#[test]
fn tagged_file_settles_with_its_title() {
    let mut s = started("song.mp3");
    let step = s.handle(Some(BusMessage::Tag(vec![text("title", "X"), text("artist", "Y")])));
    assert!(matches!(step, Step::Pending));
    assert_eq!(s.phase(), Phase::Negotiating);
    let tags = settled(s.handle(Some(BusMessage::AsyncDone)));
    assert_eq!(tags.get("title").map(|v| v.as_str()), Some("X"));
    assert_eq!(tags.get("artist").map(|v| v.as_str()), Some("Y"));
    assert_eq!(tags.len(), 2);
    assert_eq!(s.phase(), Phase::Idle);
}

#[test]
fn settling_without_tags_gives_empty_map() {
    let mut s = started("silent.wav");
    let tags = settled(s.handle(Some(BusMessage::AsyncDone)));
    assert_eq!(tags.len(), 0);
}

#[test]
fn last_tag_value_wins_across_messages() {
    let mut s = started("song.mp3");
    assert!(matches!(s.handle(Some(BusMessage::Tag(vec![text("title", "A"), text("genre", "G")]))), Step::Pending));
    assert!(matches!(s.handle(Some(BusMessage::Tag(vec![text("title", "B")]))), Step::Pending));
    let tags = settled(s.handle(Some(BusMessage::AsyncDone)));
    assert_eq!(tags.get("title").map(|v| v.as_str()), Some("B"));
    assert_eq!(tags.get("genre").map(|v| v.as_str()), Some("G"));
    assert_eq!(tags.len(), 2);
}

#[test]
fn last_tag_value_wins_within_one_message() {
    let mut s = started("song.mp3");
    let es = vec![text("title", "A"), text("title", "B"), text("title", "C")];
    assert!(matches!(s.handle(Some(BusMessage::Tag(es))), Step::Pending));
    let tags = settled(s.handle(Some(BusMessage::AsyncDone)));
    assert_eq!(tags.get("title").map(|v| v.as_str()), Some("C"));
    assert_eq!(tags.len(), 1);
}

#[test]
fn node_error_names_node_and_description() {
    let mut s = started("/no/such/file.mp4");
    let err = failed(s.handle(Some(BusMessage::Error {
        source_path: Some("/GstPipeline:pipeline0/GstFileSrc:src".to_string()),
        description: "Resource not found.".to_string(),
        details: Some("No such file \"/no/such/file.mp4\"".to_string()),
    })));
    assert_eq!(
        err,
        TagError::NodeError {
            source_path: Some("/GstPipeline:pipeline0/GstFileSrc:src".to_string()),
            description: "Resource not found.".to_string(),
            details: Some("No such file \"/no/such/file.mp4\"".to_string()),
        }
    );
    assert_eq!(s.phase(), Phase::Idle);
}

#[test]
fn end_of_stream_before_settled_is_an_error() {
    let mut s = started("odd.mkv");
    assert!(matches!(s.handle(Some(BusMessage::Tag(vec![text("title", "partial")]))), Step::Pending));
    let err = failed(s.handle(Some(BusMessage::EndOfStream)));
    assert_eq!(err, TagError::PrematureEndOfStream);
    assert_eq!(s.phase(), Phase::Idle);
}

#[test]
fn empty_receive_is_a_bus_failure() {
    let mut s = started("a.mp3");
    assert_eq!(failed(s.handle(None)), TagError::BusFailure);
    assert_eq!(s.phase(), Phase::Idle);
}

#[test]
fn non_text_tag_value_fails_with_its_name() {
    let mut s = started("a.mp4");
    let es = vec![
        text("title", "X"),
        ("bitrate".to_string(), TagValue::Other { raw: "(guint) 128000".to_string(), reason: "type mismatch".to_string() }),
        ("image".to_string(), TagValue::Other { raw: "(GstSample) ...".to_string(), reason: "type mismatch".to_string() }),
    ];
    let err = failed(s.handle(Some(BusMessage::Tag(es))));
    assert_eq!(
        err,
        TagError::TagValueDecodeFailure {
            tag_name: "bitrate".to_string(),
            raw_value: "(guint) 128000".to_string(),
            reason: "type mismatch".to_string(),
        }
    );
    assert_eq!(s.phase(), Phase::Idle);
}

#[test]
fn second_run_is_unaffected_by_first_failure() {
    let mut fresh = started("b.mp3");
    fresh.handle(Some(BusMessage::Tag(vec![text("title", "B")])));
    let expected = settled(fresh.handle(Some(BusMessage::AsyncDone)));

    let mut s = started("a.mp3");
    s.handle(Some(BusMessage::Tag(vec![text("title", "A"), text("album", "AA")])));
    failed(s.handle(Some(BusMessage::EndOfStream)));
    assert_eq!(s.phase(), Phase::Idle);
    s.begin("b.mp3".to_string());
    s.handle(Some(BusMessage::Tag(vec![text("title", "B")])));
    let tags = settled(s.handle(Some(BusMessage::AsyncDone)));
    assert_eq!(tags.entries(), expected.entries());
    assert_eq!(tags.get("album"), None);
}

#[test]
fn second_run_is_unaffected_by_first_success() {
    let mut s = started("a.mp3");
    s.handle(Some(BusMessage::Tag(vec![text("title", "A")])));
    settled(s.handle(Some(BusMessage::AsyncDone)));
    s.begin("b.mp3".to_string());
    let tags = settled(s.handle(Some(BusMessage::AsyncDone)));
    assert_eq!(tags.len(), 0);
}

#[test]
fn abandon_drops_gathered_tags() {
    let mut s = started("a.mp3");
    s.handle(Some(BusMessage::Tag(vec![text("title", "A")])));
    s.abandon();
    assert_eq!(s.phase(), Phase::Idle);
    s.begin("a.mp3".to_string());
    assert_eq!(settled(s.handle(Some(BusMessage::AsyncDone))).len(), 0);
}

#[test]
fn only_first_pad_is_linked() {
    let mut linked = false;
    let mut actions = Vec::new();
    let mut pad: u32 = 0;
    while pad < 3 {
        pad += 1;
        let a = pad_action(linked);
        if a == PadAction::Link {
            linked = true;
        }
        actions.push(a);
    }
    assert_eq!(actions, vec![PadAction::Link, PadAction::Ignore, PadAction::Ignore]);
}

#[test]
fn batch_stops_at_first_failure() {
    let mut b = Batch::new(vec!["one.mp3".to_string(), "bad.mp3".to_string(), "three.mp3".to_string()]);
    let mut handed = Vec::new();
    let outcomes = [true, false, true];
    let mut k: usize = 0;
    while let Some(p) = b.current() {
        handed.push(p.clone());
        b.record(outcomes[k]);
        k += 1;
    }
    assert_eq!(handed, vec!["one.mp3".to_string(), "bad.mp3".to_string()]);
    assert!(b.failed());
    assert_eq!(b.succeeded(), 1);
}

#[test]
fn batch_runs_every_path_on_success() {
    let mut b = Batch::new(vec!["a".to_string(), "b".to_string()]);
    let mut n: usize = 0;
    while b.current().is_some() {
        b.record(true);
        n += 1;
    }
    assert_eq!(n, 2);
    assert!(!b.failed());
    assert_eq!(b.succeeded(), 2);
}

#[test]
fn empty_batch_hands_out_nothing() {
    let b = Batch::new(Vec::new());
    assert!(b.current().is_none());
    assert!(!b.failed());
}
