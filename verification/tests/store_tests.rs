use post_store::error::StoreError;
use post_store::memstore::MemDataStore;
use post_store::post::PostData;

fn sample_store() -> MemDataStore {
    let mut store = MemDataStore::new();
    store.write_file("sample1.md", "---\ntitle: sample 1\n---\nhello\n");
    store.write_file("sample2.md", "---\ntitle: sample 2\n---\nworld\n");
    store
}

#[test]
fn create_post_delete_post_success() {
    let mut store = MemDataStore::new();
    let slug = "sample3";

    // check before create
    let readdata_before = store.read_post(slug);
    assert!(readdata_before.is_err());

    // create
    let createdata = PostData {
        title: String::from("Sample Post 3"),
        slug: String::from(slug),
        content: String::from("a test body"),
    };
    let retdata = store.create_post(&createdata).unwrap();
    assert!(retdata.eq(&createdata));

    // check after create
    let readdata = store.read_post(slug).unwrap();
    assert!(readdata.eq(&createdata));

    // delete
    let delresult = store.delete_post(&createdata.slug);
    assert!(delresult.is_ok());

    // delete is final: the read fails as an I/O problem, not a format one
    assert_eq!(store.read_post(slug).unwrap_err(), StoreError::StoreIOError);
}

#[test]
fn read_post_success() {
    let mut store = MemDataStore::new();
    store.write_file("sample1.md", "---\ntitle: sample 1\n---\nhello\n");
    let post = store.read_post("sample1").unwrap();
    assert!(post.slug.eq("sample1"));
    assert!(post.title.eq("sample 1"));
    assert_eq!(post.content, "hello");
}

#[test]
fn list_posts_success() {
    let store = sample_store();
    let slug_vec = store.list_posts().unwrap();
    assert!(slug_vec[0].eq("sample1"));
    assert!(slug_vec[1].eq("sample2"));
}

#[test]
fn list_posts_not_exists() {
    let store = MemDataStore::missing();
    let metadata = store.list_posts();
    assert!(metadata.is_err());
}

#[test]
fn update_post_success() {
    let mut store = sample_store();
    let slug = "sample2";

    // check before update
    let readdata_before = store.read_post(slug);
    assert!(readdata_before.is_ok());
    let original_postdata = readdata_before.unwrap();
    assert!(!original_postdata.content.eq("hoge"));

    // update
    let updatedata = PostData {
        title: original_postdata.title.clone(),
        slug: original_postdata.slug.clone(),
        content: String::from("hoge"),
    };
    let retdata = store.update_post(&updatedata).unwrap();
    assert!(retdata.eq(&updatedata));

    // check after update
    let readdata = store.read_post(slug).unwrap();
    assert!(readdata.eq(&updatedata));

    // restore the original content and check it reads back
    let finiret = store.update_post(&original_postdata).unwrap();
    assert!(finiret.eq(&original_postdata));
    let restored = store.read_post(slug).unwrap();
    assert!(restored.eq(&original_postdata));
}

#[test]
fn round_trip_trims_content() {
    let mut store = MemDataStore::new();
    let post = PostData {
        title: String::from("Padded"),
        slug: String::from("padded"),
        content: String::from("  \n a test body \t\n"),
    };
    store.create_post(&post).unwrap();
    let back = store.read_post("padded").unwrap();
    assert_eq!(back.title, "Padded");
    assert_eq!(back.slug, "padded");
    assert_eq!(back.content, "a test body");
}

#[test]
fn update_twice_same_payload_is_idempotent() {
    let mut store = sample_store();
    let post = PostData {
        title: String::from("again"),
        slug: String::from("sample1"),
        content: String::from("same text"),
    };
    let first = store.update_post(&post).unwrap();
    let after_first = store.read_post("sample1").unwrap();
    let second = store.update_post(&post).unwrap();
    let after_second = store.read_post("sample1").unwrap();
    assert!(first.eq(&second));
    assert!(after_first.eq(&after_second));
    assert_eq!(store.list_posts().unwrap().len(), 2);
}

#[test]
fn list_contains_exactly_the_created_slugs() {
    let mut store = MemDataStore::new();
    for slug in ["alpha", "beta", "gamma"] {
        let post = PostData {
            title: String::from("one of three"),
            slug: String::from(slug),
            content: String::from("body"),
        };
        store.create_post(&post).unwrap();
    }
    let mut listed = store.list_posts().unwrap();
    listed.sort();
    assert_eq!(listed, vec!["alpha", "beta", "gamma"]);
}

#[test]
fn create_silently_overwrites() {
    let mut store = MemDataStore::new();
    let first = PostData {
        title: String::from("first"),
        slug: String::from("same"),
        content: String::from("one"),
    };
    let second = PostData {
        title: String::from("second"),
        slug: String::from("same"),
        content: String::from("two"),
    };
    store.create_post(&first).unwrap();
    store.create_post(&second).unwrap();
    let back = store.read_post("same").unwrap();
    assert!(back.eq(&second));
    assert_eq!(store.list_posts().unwrap().len(), 1);
}

#[test]
fn update_never_creates() {
    let mut store = MemDataStore::new();
    let post = PostData {
        title: String::from("ghost"),
        slug: String::from("ghost"),
        content: String::from("body"),
    };
    assert_eq!(store.update_post(&post).unwrap_err(), StoreError::StoreIOError);
    assert!(store.list_posts().unwrap().is_empty());
}

#[test]
fn delete_missing_file_fails() {
    let mut store = MemDataStore::new();
    assert_eq!(store.delete_post("nothing").unwrap_err(), StoreError::StoreIOError);
}

#[test]
fn headerless_file_reads_as_missing_header() {
    let mut store = MemDataStore::new();
    store.write_file("bad.md", "just some text, no header block\n");
    assert_eq!(store.read_post("bad").unwrap_err(), StoreError::MissingHeader);
}

#[test]
fn unclosed_header_reads_as_missing_header() {
    let mut store = MemDataStore::new();
    store.write_file("open.md", "---\ntitle: never closed\n");
    assert_eq!(store.read_post("open").unwrap_err(), StoreError::MissingHeader);
}

#[test]
fn empty_file_reads_as_missing_header() {
    let mut store = MemDataStore::new();
    store.write_file("empty.md", "");
    assert_eq!(store.read_post("empty").unwrap_err(), StoreError::MissingHeader);
}

#[test]
fn absent_directory_fails_operations_not_construction() {
    let mut store = MemDataStore::missing();
    let post = PostData {
        title: String::from("t"),
        slug: String::from("s"),
        content: String::from("c"),
    };
    assert_eq!(store.list_posts().unwrap_err(), StoreError::StoreIOError);
    assert_eq!(store.create_post(&post).unwrap_err(), StoreError::StoreIOError);
    assert_eq!(store.read_post("s").unwrap_err(), StoreError::StoreIOError);
    assert_eq!(store.update_post(&post).unwrap_err(), StoreError::StoreIOError);
    assert_eq!(store.delete_post("s").unwrap_err(), StoreError::StoreIOError);
}

#[test]
fn error_messages_name_the_failure() {
    assert_eq!(StoreError::StoreIOError.message(), "filesystem operation failed");
    assert_eq!(StoreError::MissingHeader.message(), "post file has no front-matter header");
}
