use fototpm::collection::ImageCollection;
use fototpm::ingest::{FileIngestor, IngestReply, IngestRequest};
use fototpm::paths::{find_images, path_kind, sort_paths, PathKind};

fn strings(v: &[&str]) -> Vec<String> {
    v.iter().map(|s| s.to_string()).collect()
}

fn expect_inspect(ing: &FileIngestor, path: &str) {
    match ing.request() {
        IngestRequest::Inspect(p) => assert_eq!(p, path),
        _ => panic!("expected an inspection of {}", path),
    }
}

fn existing_file(ing: &mut FileIngestor) {
    let path = match ing.request() {
        IngestRequest::Inspect(p) => p,
        _ => panic!("expected an inspection"),
    };
    ing.reply(IngestReply::Inspected { present: true, is_dir: false, canonical: path });
}

#[test]
fn kinds_by_extension() {
    assert_eq!(path_kind("a/b.jpg"), PathKind::Image);
    assert_eq!(path_kind("a/b.JPG"), PathKind::Image);
    assert_eq!(path_kind("b.jpeg"), PathKind::Image);
    assert_eq!(path_kind("b.png"), PathKind::Image);
    assert_eq!(path_kind("b.PNG"), PathKind::Image);
    assert_eq!(path_kind("b.Jpg"), PathKind::Other);
    assert_eq!(path_kind("b.gif"), PathKind::Other);
    assert_eq!(path_kind("list.txt"), PathKind::List);
    assert_eq!(path_kind("noext"), PathKind::Other);
    assert_eq!(path_kind(".png"), PathKind::Other);
}

#[test]
fn sorting_is_lexicographic_on_text() {
    let sorted = sort_paths(&strings(&["d/b.jpg", "d/a.jpg", "d/B.jpg", "d/a", "d/a.jpg"]));
    assert_eq!(sorted, strings(&["d/B.jpg", "d/a", "d/a.jpg", "d/a.jpg", "d/b.jpg"]));
    assert_eq!(sort_paths(&Vec::new()), Vec::<String>::new());
}

#[test]
fn find_images_filters_and_sorts() {
    let found = find_images(&strings(&["./z.png", "./notes.txt", "./a.JPG", "./m.jpeg", "./x.bmp"]));
    assert_eq!(found, strings(&["./a.JPG", "./m.jpeg", "./z.png"]));
}

#[test]
fn directory_listing_is_taken_in_lexicographic_order() {
    let mut ing = FileIngestor::new(&strings(&["photos"]));
    expect_inspect(&ing, "photos");
    ing.reply(IngestReply::Inspected { present: true, is_dir: true, canonical: String::new() });
    match ing.request() {
        IngestRequest::Walk(p) => assert_eq!(p, "photos"),
        _ => panic!("expected a walk"),
    }
    ing.reply(IngestReply::Listing(strings(&[
        "photos",
        "photos/c.jpg",
        "photos/album.jpg",
        "photos/a.png",
        "photos/sub",
        "photos/sub/b.JPG",
    ])));
    // The directory itself: exists, no extension.
    expect_inspect(&ing, "photos");
    ing.reply(IngestReply::Inspected { present: true, is_dir: true, canonical: String::new() });
    expect_inspect(&ing, "photos/a.png");
    existing_file(&mut ing);
    // A directory named like an image is not collected.
    expect_inspect(&ing, "photos/album.jpg");
    ing.reply(IngestReply::Inspected { present: true, is_dir: true, canonical: String::new() });
    expect_inspect(&ing, "photos/c.jpg");
    existing_file(&mut ing);
    // A subdirectory entry is not walked again.
    expect_inspect(&ing, "photos/sub");
    ing.reply(IngestReply::Inspected { present: true, is_dir: true, canonical: String::new() });
    expect_inspect(&ing, "photos/sub/b.JPG");
    existing_file(&mut ing);
    assert!(matches!(ing.request(), IngestRequest::Finished));
    assert_eq!(ing.into_found(), strings(&["photos/a.png", "photos/c.jpg", "photos/sub/b.JPG"]));
}

#[test]
fn list_files_are_spliced_in_place() {
    let mut ing = FileIngestor::new(&strings(&["one.jpg", "list.txt", "two.png"]));
    existing_file(&mut ing);
    expect_inspect(&ing, "list.txt");
    existing_file(&mut ing);
    match ing.request() {
        IngestRequest::Read(p) => assert_eq!(p, "list.txt"),
        _ => panic!("expected a read"),
    }
    ing.reply(IngestReply::Text("x.jpg\r\nmissing.jpg\nnotes.doc\n".to_string()));
    expect_inspect(&ing, "x.jpg");
    existing_file(&mut ing);
    expect_inspect(&ing, "missing.jpg");
    ing.reply(IngestReply::Inspected { present: false, is_dir: false, canonical: String::new() });
    expect_inspect(&ing, "notes.doc");
    existing_file(&mut ing);
    expect_inspect(&ing, "two.png");
    existing_file(&mut ing);
    assert!(matches!(ing.request(), IngestRequest::Finished));
    assert_eq!(ing.found(), &strings(&["one.jpg", "x.jpg", "two.png"]));
}

#[test]
fn duplicates_are_kept() {
    let mut ing = FileIngestor::new(&strings(&["a.jpg", "a.jpg"]));
    existing_file(&mut ing);
    existing_file(&mut ing);
    assert_eq!(ing.into_found(), strings(&["a.jpg", "a.jpg"]));
}

#[test]
fn unreadable_list_file_adds_nothing() {
    let mut ing = FileIngestor::new(&strings(&["l.txt"]));
    existing_file(&mut ing);
    ing.reply(IngestReply::Text(String::new()));
    assert!(matches!(ing.request(), IngestRequest::Finished));
    assert!(ing.found().is_empty());
}

#[test]
fn a_reply_out_of_turn_changes_nothing() {
    let mut ing = FileIngestor::new(&strings(&["a.jpg"]));
    ing.reply(IngestReply::Listing(strings(&["b.jpg"])));
    ing.reply(IngestReply::Text("c.jpg".to_string()));
    expect_inspect(&ing, "a.jpg");
    existing_file(&mut ing);
    assert_eq!(ing.into_found(), strings(&["a.jpg"]));
}

#[test]
fn used_files_list_reads_back_as_the_same_paths() {
    let mut c = ImageCollection::new();
    let mut out = std::io::Cursor::new(Vec::new());
    image::RgbImage::new(4, 3).write_to(&mut out, image::ImageFormat::Png).unwrap();
    let bytes = out.into_inner();
    c.append("/p/one.png", &bytes, false).unwrap();
    c.append("/p/two.png", &bytes, false).unwrap();
    let mut ing = FileIngestor::new(&strings(&["used.txt"]));
    existing_file(&mut ing);
    ing.reply(IngestReply::Text(c.used_files()));
    expect_inspect(&ing, "/p/one.png");
    existing_file(&mut ing);
    expect_inspect(&ing, "/p/two.png");
    existing_file(&mut ing);
    assert_eq!(ing.into_found(), strings(&["/p/one.png", "/p/two.png"]));
}

#[test]
fn canonical_paths_are_collected_without_deduplication() {
    let mut ing = FileIngestor::new(&strings(&["./a.jpg", "a.jpg"]));
    for _ in 0..2 {
        ing.reply(IngestReply::Inspected {
            present: true,
            is_dir: false,
            canonical: "/home/u/a.jpg".to_string(),
        });
    }
    assert!(matches!(ing.request(), IngestRequest::Finished));
    assert_eq!(ing.into_found(), strings(&["/home/u/a.jpg", "/home/u/a.jpg"]));
}
