use tagstore::find::{find_tags, TagError};
use tagstore::tags::{get_tags_string, get_tags_vec, parse, remove_tags, serialize, set_tags};

fn tags_of(xs: &[&str]) -> Vec<String> {
    xs.iter().map(|x| x.to_string()).collect()
}

#[test]
fn parse_serialize_round_trip() {
    let original = tags_of(&["foo", "bar baz", " qux"]);
    let joined = serialize(&original);
    assert_eq!(parse(&joined), original);
}

#[test]
fn serialize_joins_with_commas() {
    assert_eq!(serialize(&tags_of(&["a", "b", "c"])), "a,b,c");
    assert_eq!(serialize(&tags_of(&["solo"])), "solo");
    assert_eq!(serialize(&tags_of(&[])), "");
}

#[test]
fn parse_empty_yields_no_tags() {
    assert_eq!(parse(""), tags_of(&[]));
}

#[test]
fn parse_keeps_empty_pieces_between_commas() {
    assert_eq!(parse("a,,b"), tags_of(&["a", "", "b"]));
    assert_eq!(parse(",x"), tags_of(&["", "x"]));
    assert_eq!(parse("x,"), tags_of(&["x", ""]));
}

#[test]
fn parse_does_not_trim_whitespace() {
    assert_eq!(parse(" foo,foo"), tags_of(&[" foo", "foo"]));
}

#[test]
fn get_tags_string_treats_empty_as_absent() {
    assert_eq!(get_tags_string(None), None);
    assert_eq!(get_tags_string(Some(String::new())), None);
    assert_eq!(get_tags_string(Some("a,b".to_string())), Some("a,b".to_string()));
}

#[test]
fn list_on_untagged_path_is_empty() {
    assert_eq!(get_tags_vec(None), tags_of(&[]));
    assert_eq!(get_tags_vec(Some(String::new())), tags_of(&[]));
}

#[test]
fn get_tags_vec_splits_stored_string() {
    assert_eq!(get_tags_vec(Some("foo,bar".to_string())), tags_of(&["foo", "bar"]));
}

#[test]
fn set_lowercases_incoming_tags() {
    let stored = set_tags(tags_of(&[]), &tags_of(&["Foo"]));
    assert_eq!(stored, tags_of(&["foo"]));
}

#[test]
fn set_is_idempotent() {
    let once = set_tags(tags_of(&["base"]), &tags_of(&["work"]));
    let twice = set_tags(once.clone(), &tags_of(&["work"]));
    assert_eq!(twice, once);
}

#[test]
fn set_skips_tags_already_present() {
    let stored = set_tags(tags_of(&["foo"]), &tags_of(&["foo", "bar"]));
    assert_eq!(stored, tags_of(&["foo", "bar"]));
}

#[test]
fn set_with_no_tags_keeps_stored_set() {
    assert_eq!(set_tags(tags_of(&["a", "b"]), &tags_of(&[])), tags_of(&["a", "b"]));
}

#[test]
fn set_deduplicates_case_insensitively() {
    let stored = set_tags(tags_of(&["foo"]), &tags_of(&["FOO"]));
    assert_eq!(stored, tags_of(&["foo"]));
}

#[test]
fn remove_drops_exactly_the_named_tags() {
    let stored = remove_tags(tags_of(&["foo", "bar"]), &tags_of(&["bar"]));
    assert_eq!(stored, tags_of(&["foo"]));
}

#[test]
fn remove_on_untagged_path_leaves_empty_set() {
    let stored = get_tags_vec(None);
    assert_eq!(remove_tags(stored, &tags_of(&["anything"])), tags_of(&[]));
}

#[test]
fn remove_does_not_lowercase_its_argument() {
    let stored = set_tags(tags_of(&[]), &tags_of(&["Foo"]));
    assert_eq!(stored, tags_of(&["foo"]));
    let after = remove_tags(stored, &tags_of(&["FOO"]));
    assert_eq!(after, tags_of(&["foo"]));
}

#[test]
fn find_reports_matching_entry_with_its_matches() {
    let hit = find_tags("work,urgent", &tags_of(&["work"]));
    assert_eq!(hit, Ok(Some(tags_of(&["work"]))));
    let miss = find_tags("home", &tags_of(&["work"]));
    assert_eq!(miss, Ok(None));
}

#[test]
fn find_matches_any_of_the_given_tags() {
    let hit = find_tags("work,urgent", &tags_of(&["urgent", "home"]));
    assert_eq!(hit, Ok(Some(tags_of(&["urgent"]))));
}

#[test]
fn find_takes_tags_as_raw_patterns() {
    let hit = find_tags("work,urgent", &tags_of(&["w.rk"]));
    assert_eq!(hit, Ok(Some(tags_of(&["work"]))));
}

#[test]
fn find_rejects_an_uncompilable_pattern() {
    let err = find_tags("anything", &tags_of(&["("]));
    assert_eq!(err, Err(TagError::InvalidPattern));
    assert_eq!(
        TagError::InvalidPattern.message(),
        "invalid search pattern built from the given tags"
    );
}
