use post_store::error::StoreError;
use post_store::frontmatter::encode_post;
use post_store::frontmatter::parse_post;
use post_store::post::PostData;
use post_store::store::build_write_data;
use post_store::store::FileDataStore;
use post_store::text::file_stem;
use post_store::text::trim;

#[test]
fn encode_post_exact_text() {
    assert_eq!(encode_post("Sample Post 3", "a test body"), "---\ntitle: Sample Post 3\n---\na test body");
    assert_eq!(encode_post("", ""), "---\ntitle: \n---\n");
}

#[test]
fn parse_post_reads_title_slug_and_trimmed_body() {
    let post = parse_post("sample1", "---\ntitle: sample 1\n---\n  hello \n").unwrap();
    assert_eq!(post.title, "sample 1");
    assert_eq!(post.slug, "sample1");
    assert_eq!(post.content, "hello");
}

#[test]
fn parse_post_inverts_encode_post() {
    let text = encode_post("a title", "the body");
    let post = parse_post("a-slug", &text).unwrap();
    assert_eq!(post.title, "a title");
    assert_eq!(post.slug, "a-slug");
    assert_eq!(post.content, "the body");
}

#[test]
fn parse_post_ignores_extra_header_lines() {
    let post = parse_post("s", "---\ntitle: kept\nother: dropped\n---\nbody").unwrap();
    assert_eq!(post.title, "kept");
    assert_eq!(post.content, "body");
}

#[test]
fn parse_post_requires_the_title_line_first() {
    let r = parse_post("s", "---\nother: x\ntitle: late\n---\nbody");
    assert_eq!(r.unwrap_err(), StoreError::MissingHeader);
}

#[test]
fn parse_post_rejects_text_before_the_header() {
    let r = parse_post("s", "padding\n---\ntitle: x\n---\nbody");
    assert_eq!(r.unwrap_err(), StoreError::MissingHeader);
}

#[test]
fn parse_post_accepts_a_body_holding_boundary_lines() {
    let post = parse_post("s", "---\ntitle: x\n---\nabove\n---\nbelow\n").unwrap();
    assert_eq!(post.title, "x");
    assert_eq!(post.content, "above\n---\nbelow");
}

#[test]
fn trim_removes_surrounding_whitespace_only() {
    assert_eq!(trim(""), "");
    assert_eq!(trim("   \t\n"), "");
    assert_eq!(trim("  a test body \t\n"), "a test body");
    assert_eq!(trim("inner  space kept"), "inner  space kept");
    assert_eq!(trim("\u{a0}wide\u{a0}"), "wide");
}

#[test]
fn file_stem_matches_path_semantics() {
    assert_eq!(file_stem("sample1.md"), "sample1");
    assert_eq!(file_stem("archive.tar.md"), "archive.tar");
    assert_eq!(file_stem("no_extension"), "no_extension");
    assert_eq!(file_stem(".md"), ".md");
    assert_eq!(file_stem("..md"), ".");
    assert_eq!(file_stem(""), "");
}

#[test]
fn slug_to_path_appends_directory_and_suffix() {
    let store = FileDataStore::new("./example/posts");
    assert_eq!(store.slug_to_path("sample3"), "./example/posts/sample3.md");
}

#[test]
fn build_write_data_pairs_path_with_encoded_text() {
    let store = FileDataStore::new("./example/posts");
    let post = PostData {
        title: String::from("Sample Post 3"),
        slug: String::from("sample3"),
        content: String::from(" a test body \n"),
    };
    let (path, markdown) = build_write_data(&store, &post);
    assert_eq!(path, "./example/posts/sample3.md");
    assert_eq!(markdown, "---\ntitle: Sample Post 3\n---\na test body");
}
