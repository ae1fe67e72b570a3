use nbt_view::ingest::{classify, derive_title, finish_ingest, Envelope, IngestError};
use nbt_view::model::{check_wf, check_wf_root, Entry, TagValue};
use nbt_view::state::{handle_event, UiEvent, UiTable};

#[test]
fn gzip_magic_routes_to_gzip() {
    let bytes = [0x1f, 0x8b, 0x08, 0x00];
    assert_eq!(classify(&bytes), Ok(Envelope::Gzip));
}

#[test]
fn zlib_headers_route_to_zlib() {
    for second in [0x01u8, 0x5e, 0x9c, 0xda] {
        let bytes = [0x78, second, 0x00];
        assert_eq!(classify(&bytes), Ok(Envelope::Zlib));
    }
}

#[test]
fn other_prefixes_route_to_raw() {
    assert_eq!(classify(&[0x0a, 0x00, 0x00]), Ok(Envelope::Raw));
    assert_eq!(classify(&[0x78, 0x02]), Ok(Envelope::Raw));
    assert_eq!(classify(&[0x1f, 0x8c]), Ok(Envelope::Raw));
    assert_eq!(classify(&[0x8b, 0x1f]), Ok(Envelope::Raw));
}

#[test]
fn sniffing_consumes_nothing() {
    let bytes = [0x1f, 0x8b, 0x42];
    let before = bytes;
    let _ = classify(&bytes);
    // the decode step re-reads from byte zero; the stream is untouched
    assert_eq!(bytes, before);
}

#[test]
fn too_short_stream_is_a_read_error() {
    assert_eq!(classify(&[]), Err(IngestError::Io));
    assert_eq!(classify(&[0x1f]), Err(IngestError::Io));
}

#[test]
fn title_falls_back_when_no_name_is_known() {
    assert_eq!(derive_title(Some("level.dat".to_owned())), "level.dat");
    assert_eq!(derive_title(None), "Untitled");
}

#[test]
fn successful_ingest_wraps_the_decoded_root() {
    let entries = vec![Entry { name: "hp".to_owned(), value: TagValue::Int(3) }];
    let d = finish_ingest(Envelope::Raw, Some(entries), "save.dat".to_owned()).unwrap();
    assert_eq!(d.title, "save.dat");
    assert_eq!(d.root.len(), 1);
    assert_eq!(d.root[0].name, "hp");
}

#[test]
fn codec_failure_reports_the_attempted_envelope() {
    let r = finish_ingest(Envelope::Zlib, None, "save.dat".to_owned());
    match r {
        Err(e) => assert_eq!(e, IngestError::Codec(Envelope::Zlib)),
        Ok(_) => panic!("a codec failure must not produce a document"),
    }
}

#[test]
fn table_lookup_miss_yields_default_state() {
    let tbl = UiTable::new();
    let st = tbl.get(42);
    assert!(!st.expanded);
    assert!(!st.editor_open);
    assert_eq!(st.buffer, "");
}

#[test]
fn events_change_exactly_the_addressed_state() {
    let mut tbl = UiTable::new();
    handle_event(&mut tbl, UiEvent::HeaderClicked(7));
    handle_event(&mut tbl, UiEvent::ScalarActivated(3));
    handle_event(&mut tbl, UiEvent::BufferEdited(3, "12.5".to_owned()));
    assert!(tbl.get(7).expanded);
    assert!(!tbl.get(7).editor_open);
    assert!(tbl.get(3).editor_open);
    assert_eq!(tbl.get(3).buffer, "12.5");
    assert!(!tbl.get(3).expanded);
    assert!(!tbl.get(0).expanded);
    handle_event(&mut tbl, UiEvent::EditorClosed(3));
    assert!(!tbl.get(3).editor_open);
    assert_eq!(tbl.get(3).buffer, "12.5");
    handle_event(&mut tbl, UiEvent::HeaderClicked(7));
    assert!(!tbl.get(7).expanded);
}

#[test]
fn duplicate_names_fail_the_wf_check() {
    let dup = vec![
        Entry { name: "hp".to_owned(), value: TagValue::Int(1) },
        Entry { name: "hp".to_owned(), value: TagValue::Int(2) },
    ];
    assert!(!check_wf_root(&dup));
    let ok = vec![
        Entry { name: "hp".to_owned(), value: TagValue::Int(1) },
        Entry { name: "xp".to_owned(), value: TagValue::Int(2) },
    ];
    assert!(check_wf_root(&ok));
}

#[test]
fn wf_check_descends_into_nested_compounds() {
    let bad_inner = TagValue::List(vec![TagValue::Compound(vec![
        Entry { name: "a".to_owned(), value: TagValue::Byte(0) },
        Entry { name: "a".to_owned(), value: TagValue::Byte(1) },
    ])]);
    assert!(!check_wf(&bad_inner));
    let good_inner = TagValue::List(vec![TagValue::Compound(vec![
        Entry { name: "a".to_owned(), value: TagValue::Byte(0) },
        Entry { name: "b".to_owned(), value: TagValue::Byte(1) },
    ])]);
    assert!(check_wf(&good_inner));
}
