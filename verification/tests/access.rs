use srt::access::{AccessControlEntry, AccessControlList, StandardAccessControlEntry};
use srt::source_id::SourceId;

fn entry(key: &str, value: &str) -> AccessControlEntry {
    AccessControlEntry { key: key.to_string(), value: value.to_string() }
}

fn source(stream_id: &str) -> Option<String> {
    SourceId::from_str(stream_id).ok().map(|id| id.deref().clone())
}

#[test]
fn list_is_read() {
    let list = AccessControlList::from_str("#!::u=admin,r=news/today,x=a=b").unwrap();
    assert_eq!(
        list.0,
        vec![entry("u", "admin"), entry("r", "news/today"), entry("x", "a=b")]
    );
}

#[test]
fn list_without_its_prefix_is_refused() {
    for text in ["", "#!:", "r=source", "#!:;r=source", " #!::r=source"] {
        assert_eq!(AccessControlList::from_str(text), Err(()));
    }
}

#[test]
fn what_is_no_entry_is_passed_over() {
    let list = AccessControlList::from_str("#!::,plain,r=x,").unwrap();
    assert_eq!(list.0, vec![entry("r", "x")]);
    assert_eq!(AccessControlList::from_str("#!::").unwrap().0, vec![]);
}

#[test]
fn written_list_is_read_back() {
    let list = AccessControlList(vec![
        AccessControlEntry::from_standard(StandardAccessControlEntry::UserName("eve".to_string())),
        AccessControlEntry::from_standard(StandardAccessControlEntry::ResourceName(
            "a=\u{e9}".to_string(),
        )),
        entry("", ""),
    ]);
    let text = list.to_stream_id();
    assert_eq!(text, "#!::u=eve,r=a=\u{e9},=");
    assert_eq!(AccessControlList::from_str(&text).unwrap(), list);
    assert_eq!(AccessControlList(vec![]).to_stream_id(), "#!::");
}

#[test]
fn standard_keys_are_told_apart() {
    assert_eq!(
        entry("u", "eve").to_standard(),
        Some(StandardAccessControlEntry::UserName("eve".to_string()))
    );
    assert_eq!(
        entry("r", "x").to_standard(),
        Some(StandardAccessControlEntry::ResourceName("x".to_string()))
    );
    assert_eq!(entry("ur", "x").to_standard(), None);
    assert_eq!(entry("", "x").to_standard(), None);
}

#[test]
fn source_is_named_by_the_resources() {
    assert_eq!(source("#!::r=source"), Some("source".to_string()));
    assert_eq!(source("#!::r=a,u=eve,r=b"), Some("a,b".to_string()));
    assert_eq!(source("#!::r=,r="), Some(",".to_string()));
    assert!(SourceId::from_str("#!::r=a") < SourceId::from_str("#!::r=b"));
}

#[test]
fn source_without_a_name_is_refused() {
    assert_eq!(source("#!::r="), None);
    assert_eq!(source("#!::u=eve"), None);
    assert_eq!(source("source"), None);
    assert_eq!(SourceId::try_from(None), Err(()));
    assert_eq!(SourceId::from_name(String::new()), Err(()));
    assert!(SourceId::try_from(Some("#!::r=source")).is_ok());
}
