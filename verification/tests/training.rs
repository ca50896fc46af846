use porch_camera::training::{
    LabelError, LabelFile, LabelStore, LabelingConfig, Labels, TagSet,
};
use std::collections::HashMap;
use std::path::PathBuf;
use std::sync::Arc;

fn strings(tags: &[&str]) -> Vec<String> {
    tags.iter().map(|t| t.to_string()).collect()
}

fn tag_set(name: &str, tags: &[&str]) -> TagSet {
    TagSet {
        name: name.to_string(),
        tags: strings(tags),
    }
}

/// A label store whose files are in memory.
struct Directory {
    store: Arc<LabelStore>,
    files: HashMap<String, Labels>,
}

impl Directory {
    fn new() -> Directory {
        Directory {
            store: LabelStore::new(
                LabelingConfig {
                    tag_sets: vec![tag_set("foo", &["foo1", "foo2", "foo3"])],
                },
                PathBuf::from("frames"),
            ),
            files: HashMap::new(),
        }
    }

    fn read(&self, frame_id: &str) -> LabelFile {
        match self.files.get(&self.store.label_file_path(frame_id)) {
            Some(labels) => LabelFile::Parsed(labels.clone()),
            None => LabelFile::Missing,
        }
    }

    fn get_labels(&self, frame_id: &str) -> Result<Labels, LabelError> {
        self.store.get_labels(self.read(frame_id))
    }

    fn set_tags(&mut self, frame_id: &str, tags: TagSet) -> Result<Labels, LabelError> {
        let write = self.store.set_tags(frame_id, self.read(frame_id), tags)?;
        self.files.insert(write.file_name, write.labels.clone());
        Ok(write.labels)
    }

    fn delete(&mut self, frame_id: &str) -> Option<Labels> {
        self.files.remove(&self.store.delete(frame_id))
    }
}

fn contents(labels: &Labels) -> Vec<(&str, Vec<&str>)> {
    labels
        .tag_sets
        .iter()
        .map(|t| {
            (
                t.name.as_str(),
                t.tags.iter().map(|s| s.as_str()).collect(),
            )
        })
        .collect()
}

#[test]
fn test_get_empty() {
    let store = Directory::new();

    let actual = store.get_labels("2025-10-15_16-59-50-912_+0000");
    assert_eq!(actual.is_ok(), true);
    assert_eq!(actual.unwrap().tag_sets.len(), 0);
}

#[test]
fn test_labels_file_round_trip() {
    let mut store = Directory::new();

    let tags = tag_set("foo", &["foo2"]);
    store
        .set_tags("2025-10-15_16-59-50-912_+0000", tags)
        .unwrap();

    let actual = store.get_labels("2025-10-15_16-59-50-912_+0000");
    assert_eq!(actual.is_ok(), true);
    let actual_tags = actual.unwrap().tag_sets;
    assert_eq!(actual_tags.len(), 1);
    let actual_tags_0 = actual_tags.get(0).unwrap();
    assert_eq!(actual_tags_0.name, "foo");
    let actual_tags_0_tags = &actual_tags_0.tags;
    assert_eq!(actual_tags_0_tags.len(), 1);
    assert_eq!(actual_tags_0_tags.get(0).unwrap(), "foo2");
}

#[test]
fn training_test_delete() {
    let mut store = Directory::new();

    let tags = tag_set("foo", &["foo2"]);
    store
        .set_tags("2025-10-15_16-59-50-912_+0000", tags)
        .unwrap();

    let actual = store.get_labels("2025-10-15_16-59-50-912_+0000");
    assert_eq!(actual.is_ok(), true);
    assert_eq!(actual.unwrap().tag_sets.len(), 1);

    store.delete("2025-10-15_16-59-50-912_+0000").unwrap();

    let actual = store.get_labels("2025-10-15_16-59-50-912_+0000");
    // Returns a default one
    assert_eq!(actual.is_ok(), true);
    assert_eq!(actual.unwrap().tag_sets.len(), 0);
}

#[test]
fn label_files_stand_beside_pictures() {
    let store = Directory::new().store;
    assert_eq!(
        store.label_file_path("2025-10-15_16-59-50-912_+0000"),
        "2025-10-15_16-59-50-912_+0000.labels.json"
    );
    assert_eq!(store.delete("a.b"), "a.labels.json");
    assert_eq!(store.config.tag_sets[0].name, "foo");
    assert_eq!(store.storage_dir, PathBuf::from("frames"));
}

#[test]
fn unreadable_labels_are_an_error() {
    let store = Directory::new().store;
    assert_eq!(
        store.get_labels(LabelFile::Unreadable).unwrap_err(),
        LabelError::Unreadable
    );
    assert_eq!(
        store.get_labels(LabelFile::Unparsable).unwrap_err(),
        LabelError::Unparsable
    );
    assert_eq!(
        store
            .set_tags("x", LabelFile::Unreadable, tag_set("a", &[]))
            .unwrap_err(),
        LabelError::Unreadable
    );
    assert_eq!(
        store
            .set_tags("x", LabelFile::Unparsable, tag_set("a", &[]))
            .unwrap_err(),
        LabelError::Unparsable
    );
}

#[test]
fn tag_sets_are_sorted_by_name() {
    let mut store = Directory::new();
    store.set_tags("x", tag_set("weather", &["rain"])).unwrap();
    store.set_tags("x", tag_set("animal", &["cat"])).unwrap();
    let labels = store.set_tags("x", tag_set("person", &[])).unwrap();
    assert_eq!(
        contents(&labels),
        vec![
            ("animal", vec!["cat"]),
            ("person", vec![]),
            ("weather", vec!["rain"]),
        ]
    );
}

#[test]
fn the_last_tags_of_a_name_count() {
    let mut store = Directory::new();
    store.set_tags("x", tag_set("b", &["old"])).unwrap();
    store.set_tags("x", tag_set("a", &["kept"])).unwrap();
    let labels = store.set_tags("x", tag_set("b", &["new", "newer"])).unwrap();
    assert_eq!(
        contents(&labels),
        vec![("a", vec!["kept"]), ("b", vec!["new", "newer"])]
    );
}

#[test]
fn tags_of_different_names_commute() {
    let mut one = Directory::new();
    one.set_tags("x", tag_set("b", &["1"])).unwrap();
    let ab = one.set_tags("x", tag_set("a", &["2"])).unwrap();
    let mut two = Directory::new();
    two.set_tags("x", tag_set("a", &["2"])).unwrap();
    let ba = two.set_tags("x", tag_set("b", &["1"])).unwrap();
    assert_eq!(contents(&ab), contents(&ba));
}

#[test]
fn repeated_names_in_a_file_are_replaced_or_keep_their_order() {
    let store = Directory::new().store;
    let file = || {
        LabelFile::Parsed(Labels {
            tag_sets: vec![
                tag_set("b", &["1"]),
                tag_set("a", &["2"]),
                tag_set("b", &["3"]),
                tag_set("a", &["4"]),
            ],
        })
    };
    let labels = store
        .set_tags("x", file(), tag_set("b", &["5"]))
        .unwrap()
        .labels;
    assert_eq!(
        contents(&labels),
        vec![("a", vec!["2"]), ("a", vec!["4"]), ("b", vec!["5"])]
    );
    let labels = store
        .set_tags("x", file(), tag_set("c", &["5"]))
        .unwrap()
        .labels;
    assert_eq!(
        contents(&labels),
        vec![
            ("a", vec!["2"]),
            ("a", vec!["4"]),
            ("b", vec!["1"]),
            ("b", vec!["3"]),
            ("c", vec!["5"]),
        ]
    );
}

#[test]
fn labels_are_empty_by_default() {
    assert_eq!(Labels::default().tag_sets.len(), 0);
}

#[test]
fn repeated_tags_change_nothing() {
    let mut store = Directory::new();
    store.set_tags("x", tag_set("b", &["1"])).unwrap();
    let once = store.set_tags("x", tag_set("a", &["2"])).unwrap();
    let twice = store.set_tags("x", tag_set("a", &["2"])).unwrap();
    assert_eq!(contents(&once), contents(&twice));
}

#[test]
fn other_frames_keep_their_labels() {
    let mut store = Directory::new();
    store.set_tags("x", tag_set("a", &["1"])).unwrap();
    store.set_tags("y", tag_set("a", &["2"])).unwrap();
    store.set_tags("y:z", tag_set("a", &["3"])).unwrap();
    assert_eq!(
        contents(&store.get_labels("x").unwrap()),
        vec![("a", vec!["1"])]
    );
    store.delete("x").unwrap();
    assert_eq!(
        contents(&store.get_labels("y").unwrap()),
        vec![("a", vec!["2"])]
    );
    assert_eq!(
        contents(&store.get_labels("y:z").unwrap()),
        vec![("a", vec!["3"])]
    );
}
