use be_music_cabinet::event::BMSEvent;

const ALL: [BMSEvent; 6] = [
    BMSEvent::BOFNT,
    BMSEvent::BOFTT,
    BMSEvent::LetsBMSEdit,
    BMSEvent::LetsBMSEdit2,
    BMSEvent::LetsBMSEdit3,
    BMSEvent::LetsBMSEdit4,
];

#[test]
fn list_pages() {
    assert_eq!(
        BMSEvent::BOFNT.list_url(),
        "https://manbow.nothing.sh/event/event.cgi?action=sp&event=142"
    );
    assert_eq!(
        BMSEvent::BOFTT.list_url(),
        "https://manbow.nothing.sh/event/event.cgi?action=sp&event=146"
    );
    assert_eq!(BMSEvent::LetsBMSEdit.list_url(), "https://venue.bmssearch.net/letsbmsedit");
    assert_eq!(BMSEvent::LetsBMSEdit2.list_url(), "https://venue.bmssearch.net/letsbmsedit2");
    assert_eq!(BMSEvent::LetsBMSEdit3.list_url(), "https://venue.bmssearch.net/letsbmsedit3");
    assert_eq!(BMSEvent::LetsBMSEdit4.list_url(), "https://venue.bmssearch.net/letsbmsedit4");
}

#[test]
fn work_pages() {
    assert_eq!(
        BMSEvent::BOFNT.work_info_url(7),
        "https://manbow.nothing.sh/event/event.cgi?action=More_def&num=7&event=142"
    );
    assert_eq!(
        BMSEvent::BOFTT.work_info_url(123),
        "https://manbow.nothing.sh/event/event.cgi?action=More_def&num=123&event=146"
    );
    assert_eq!(
        BMSEvent::LetsBMSEdit.work_info_url(0),
        "https://venue.bmssearch.net/letsbmsedit/0"
    );
    assert_eq!(
        BMSEvent::LetsBMSEdit2.work_info_url(10),
        "https://venue.bmssearch.net/letsbmsedit2/10"
    );
    assert_eq!(
        BMSEvent::LetsBMSEdit3.work_info_url(4294967295),
        "https://venue.bmssearch.net/letsbmsedit3/4294967295"
    );
    assert_eq!(
        BMSEvent::LetsBMSEdit4.work_info_url(42),
        "https://venue.bmssearch.net/letsbmsedit4/42"
    );
}

#[test]
fn numbers_and_names() {
    let numbers: Vec<u32> = ALL.iter().map(|e| e.number()).collect();
    assert_eq!(numbers, vec![19, 20, 101, 102, 103, 104]);
    let names: Vec<&str> = ALL.iter().map(|e| e.name()).collect();
    assert_eq!(
        names,
        vec!["BOFNT", "BOFTT", "LetsBMSEdit", "LetsBMSEdit2", "LetsBMSEdit3", "LetsBMSEdit4"]
    );
}

#[test]
fn events_are_read_by_name_or_number() {
    for e in ALL {
        assert_eq!(BMSEvent::from_str(e.name()), Ok(e));
        assert_eq!(BMSEvent::from_str(&e.number().to_string()), Ok(e));
        assert_eq!(BMSEvent::from_str(&format!("  {}\n", e.number())), Ok(e));
    }
    assert_eq!(BMSEvent::from_str("\tBOFTT "), Ok(BMSEvent::BOFTT));
    assert_eq!(BMSEvent::from_str("boftt"), Err(()));
    assert_eq!(BMSEvent::from_str("21"), Err(()));
    assert_eq!(BMSEvent::from_str(""), Err(()));
    assert_eq!(BMSEvent::from_str("2 0"), Err(()));
}
