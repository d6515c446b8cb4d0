use bookio_covers::assets::{
    enumerate_assets, get_image_url, select_cover, AssetEnumeration, AssetsPolicyResponse,
    BookIoMetadata, ExtractError, FileData, SpecificAssetResponse,
};
use bookio_covers::collector::{get_distinct_cover_image_urls, Recorded, UrlCollector, MAX_IMAGES};
use bookio_covers::download::{
    cids_to_download, file_name_for, gateway_url, get_filenames_from_output_dir,
    normalize_locator, progress_label, progress_position, stem_of, IMAGE_EXTENSION,
};
use bookio_covers::text::{equals_ignore_ascii_case, starts_with, strip_suffix};
use bookio_covers::registry::{
    verify_bookio_policy, CollectionItem, CollectionsResponse, PolicyError,
};

fn strings(items: &[&str]) -> Vec<String> {
    items.iter().map(|s| s.to_string()).collect()
}

fn collection(id: &str) -> CollectionItem {
    CollectionItem {
        collection_id: id.to_string(),
        description: "books".to_string(),
        blockchain: "cardano".to_string(),
        network: "mainnet".to_string(),
    }
}

fn registry(ids: &[&str]) -> CollectionsResponse {
    CollectionsResponse {
        type_: "collections".to_string(),
        data: ids.iter().map(|id| collection(id)).collect(),
    }
}

fn page(ids: &[&str]) -> Vec<AssetsPolicyResponse> {
    ids.iter()
        .map(|id| AssetsPolicyResponse { asset: id.to_string(), quantity: "1".to_string() })
        .collect()
}

fn file(media_type: &str, name: &str, src: &str) -> FileData {
    FileData { media_type: media_type.to_string(), name: name.to_string(), src: src.to_string() }
}

fn asset(id: &str, files: Option<Vec<FileData>>) -> SpecificAssetResponse {
    SpecificAssetResponse {
        asset: id.to_string(),
        onchain_metadata: files.map(|files| BookIoMetadata { files }),
    }
}

fn cover_asset(id: &str, src: &str) -> SpecificAssetResponse {
    asset(id, Some(vec![file("image/png", "High-Res Cover Image", src)]))
}

#[test]
fn registry_accepts_listed_policy() {
    let r = registry(&["p1", "abc", "p3"]);
    assert!(verify_bookio_policy(&r, "abc").is_ok());
}

#[test]
fn registry_rejects_unlisted_policy() {
    let r = registry(&["p1", "abc", "p3"]);
    match verify_bookio_policy(&r, "abcd") {
        Err(PolicyError::NotFound(id)) => assert_eq!(id, "abcd"),
        Ok(()) => panic!("an unlisted policy was accepted"),
    }
    assert!(verify_bookio_policy(&registry(&[]), "abc").is_err());
    assert!(verify_bookio_policy(&r, "ABC").is_err());
}

#[test]
fn enumeration_stops_at_first_empty_page() {
    let mut e = AssetEnumeration::new();
    assert_eq!(e.page, 1);
    e.absorb_page(&page(&["a1", "a2"]));
    assert_eq!(e.page, 2);
    assert!(!e.finished);
    e.absorb_page(&page(&["a2", "a3", "a3"]));
    assert_eq!(e.page, 3);
    e.absorb_page(&page(&[]));
    assert!(e.finished);
    assert_eq!(e.page, 3);
    assert_eq!(e.assets, strings(&["a1", "a2", "a3"]));
}

#[test]
fn enumeration_ignores_pages_after_empty_one() {
    let pages = vec![page(&["a1", "a1"]), page(&["a2"]), page(&[]), page(&["a9"])];
    assert_eq!(enumerate_assets(&pages), strings(&["a1", "a2"]));
    assert_eq!(enumerate_assets(&vec![]), Vec::<String>::new());
    assert_eq!(enumerate_assets(&vec![page(&[]), page(&["a1"])]), Vec::<String>::new());
}

#[test]
fn enumeration_size_bounded_by_page_sizes() {
    let distinct = vec![page(&["a1", "a2"]), page(&["a3"]), page(&[])];
    assert_eq!(enumerate_assets(&distinct).len(), 3);
    let repeated = vec![page(&["a1", "a2"]), page(&["a2", "a1"]), page(&[])];
    assert_eq!(enumerate_assets(&repeated).len(), 2);
}

#[test]
fn selection_takes_first_qualifying_entry() {
    let files = vec![
        file("text/html", "high-res cover image", "ipfs://NOTIMAGE"),
        file("image/jpeg", "thumbnail", "ipfs://THUMB"),
        file("image/png", "HIGH-RES COVER IMAGE", "ipfs://FIRST"),
        file("image/png", "high-res cover image", "ipfs://SECOND"),
    ];
    assert_eq!(select_cover(&files), Some(2));
    assert_eq!(select_cover(&files), Some(2));
    let a = asset("a1", Some(files));
    for _ in 0..2 {
        match get_image_url(&a) {
            Ok(u) => assert_eq!(u, "ipfs://FIRST"),
            Err(_) => panic!("a cover was expected"),
        }
    }
}

#[test]
fn selection_never_picks_non_image_media_type() {
    let files = vec![
        file("application/pdf", "high-res cover image", "ipfs://PDF"),
        file("Image/png", "high-res cover image", "ipfs://UPPER"),
    ];
    assert_eq!(select_cover(&files), None);
    match get_image_url(&asset("a7", Some(files))) {
        Err(ExtractError::ImageNotFound(id)) => assert_eq!(id, "a7"),
        _ => panic!("no cover was expected"),
    }
}

#[test]
fn selection_requires_exact_name() {
    let files = vec![
        file("image/png", "high-res cover image ", "ipfs://SPACE"),
        file("image/png", "high-res cover", "ipfs://SHORT"),
    ];
    assert_eq!(select_cover(&files), None);
    assert_eq!(select_cover(&vec![]), None);
}

#[test]
fn asset_without_metadata_is_reported() {
    match get_image_url(&asset("a1", None)) {
        Err(ExtractError::MetadataMissing(id)) => assert_eq!(id, "a1"),
        _ => panic!("missing metadata was expected"),
    }
}

#[test]
fn collector_caps_at_ten_distinct() {
    let outcomes: Vec<Result<String, ExtractError>> =
        (0..12).map(|i| Ok(format!("ipfs://CID{i}"))).collect();
    let urls = get_distinct_cover_image_urls(&outcomes);
    assert_eq!(urls.len(), MAX_IMAGES);
    assert_eq!(MAX_IMAGES, 10);
    let expected: Vec<String> = (0..10).map(|i| format!("ipfs://CID{i}")).collect();
    assert_eq!(urls, expected);
}

#[test]
fn collector_drops_duplicates_and_failures() {
    let outcomes = vec![
        Err(ExtractError::MetadataMissing("a0".to_string())),
        Ok("ipfs://X".to_string()),
        Ok("ipfs://X".to_string()),
        Err(ExtractError::ImageNotFound("a3".to_string())),
        Ok("X".to_string()),
    ];
    assert_eq!(get_distinct_cover_image_urls(&outcomes), strings(&["ipfs://X", "X"]));
    assert_eq!(get_distinct_cover_image_urls(&vec![]), Vec::<String>::new());
}

#[test]
fn collector_duplicates_do_not_count_toward_cap() {
    let mut outcomes: Vec<Result<String, ExtractError>> = Vec::new();
    for i in 0..11 {
        outcomes.push(Ok(format!("U{i}")));
        outcomes.push(Ok(format!("U{i}")));
    }
    let urls = get_distinct_cover_image_urls(&outcomes);
    let expected: Vec<String> = (0..10).map(|i| format!("U{i}")).collect();
    assert_eq!(urls, expected);
}

#[test]
fn collector_records_each_outcome() {
    let mut c = UrlCollector::new();
    assert!(matches!(c.record(&Ok("A".to_string())), Recorded::Added));
    assert!(matches!(c.record(&Ok("A".to_string())), Recorded::Discarded));
    assert!(matches!(
        c.record(&Err(ExtractError::ImageNotFound("a".to_string()))),
        Recorded::Skipped
    ));
    assert!(!c.is_full());
    for i in 0..9 {
        assert!(matches!(c.record(&Ok(format!("B{i}"))), Recorded::Added));
    }
    assert!(c.is_full());
    assert!(matches!(c.record(&Ok("C".to_string())), Recorded::Discarded));
    assert_eq!(c.urls.len(), 10);
}

#[test]
fn scanner_keeps_stems_of_image_files() {
    let names = strings(&["abc123.png", "def456.png", "notes.txt"]);
    assert_eq!(
        get_filenames_from_output_dir(&names, "png"),
        strings(&["abc123", "def456"])
    );
}

#[test]
fn scanner_edge_cases() {
    let names = strings(&["a.png.png", "png", ".png", "b.PNG", "c.png", "c.png"]);
    assert_eq!(
        get_filenames_from_output_dir(&names, IMAGE_EXTENSION),
        strings(&["a.png", "", "c"])
    );
    assert_eq!(get_filenames_from_output_dir(&vec![], "png"), Vec::<String>::new());
}

#[test]
fn normalization_strips_only_the_scheme_prefix() {
    assert_eq!(normalize_locator("ipfs://QmCid"), "QmCid");
    assert_eq!(normalize_locator("QmCid"), "QmCid");
    assert_eq!(normalize_locator("https://gw/ipfs://QmCid"), "https://gw/ipfs://QmCid");
    assert_eq!(normalize_locator("ipfs://"), "");
}

#[test]
fn plan_skips_present_and_repeated() {
    let urls = strings(&["ipfs://A", "ipfs://B", "B", "ipfs://C"]);
    let present = strings(&["C", "Z"]);
    assert_eq!(cids_to_download(&urls, &present), strings(&["A", "B"]));
}

#[test]
fn second_download_run_fetches_nothing() {
    let urls = strings(&["ipfs://A", "ipfs://B", "ipfs://C"]);
    let mut names = strings(&["B.png", "readme.md"]);
    let first = cids_to_download(&urls, &get_filenames_from_output_dir(&names, "png"));
    assert_eq!(first, strings(&["A", "C"]));
    for cid in &first {
        names.push(file_name_for(cid, "png"));
    }
    let second = cids_to_download(&urls, &get_filenames_from_output_dir(&names, "png"));
    assert!(second.is_empty());
}

#[test]
fn end_to_end_fetches_new_cover() {
    let r = registry(&["abc"]);
    assert!(verify_bookio_policy(&r, "abc").is_ok());
    let assets = enumerate_assets(&vec![page(&["a1", "a2"]), page(&["a3", "a1"]), page(&[])]);
    assert_eq!(assets, strings(&["a1", "a2", "a3"]));
    let records = vec![
        asset("a1", None),
        cover_asset("a2", "ipfs://CID1"),
        cover_asset("a3", "ipfs://CID1"),
    ];
    let mut c = UrlCollector::new();
    for rec in &records {
        c.record(&get_image_url(rec));
    }
    assert_eq!(c.urls, strings(&["ipfs://CID1"]));
    let present = get_filenames_from_output_dir(&vec![], IMAGE_EXTENSION);
    let plan = cids_to_download(&c.urls, &present);
    assert_eq!(plan, strings(&["CID1"]));
    assert_eq!(file_name_for(&plan[0], IMAGE_EXTENSION), "CID1.png");
    assert_eq!(gateway_url(&plan[0]), "http://ipfs.blockfrost.dev/ipfs/CID1");
}

#[test]
fn end_to_end_nothing_to_do() {
    let outcomes: Vec<Result<String, ExtractError>> = vec![
        get_image_url(&asset("a1", None)),
        get_image_url(&cover_asset("a2", "ipfs://CID1")),
        get_image_url(&cover_asset("a3", "ipfs://CID1")),
    ];
    let urls = get_distinct_cover_image_urls(&outcomes);
    let present = get_filenames_from_output_dir(&strings(&["CID1.png"]), IMAGE_EXTENSION);
    assert!(cids_to_download(&urls, &present).is_empty());
}

#[test]
fn file_names_round_trip() {
    assert_eq!(file_name_for("QmX", "png"), "QmX.png");
    assert_eq!(stem_of("QmX.png", "png"), Some("QmX".to_string()));
    assert_eq!(stem_of("QmX.jpg", "png"), None);
    assert_eq!(stem_of("png", "png"), None);
}

#[test]
fn progress_never_passes_total() {
    assert_eq!(progress_position(Some(100), 40, 30), 70);
    assert_eq!(progress_position(Some(100), 90, 30), 100);
    assert_eq!(progress_position(Some(0), 0, 512), 0);
    assert_eq!(progress_position(None, 1000, 512), 1512);
    assert_eq!(progress_position(None, u64::MAX - 1, 5), u64::MAX);
}

#[test]
fn progress_label_shortens_identifiers() {
    assert_eq!(progress_label("QmAbcdefghijXYZ12"), "QmAbc...XYZ12");
    assert_eq!(progress_label("abcdef"), "abcde...bcdef");
    assert_eq!(progress_label("abc"), "abc");
}

#[test]
fn text_helpers() {
    assert!(starts_with("image/png", "image"));
    assert!(!starts_with("imag", "image"));
    assert!(starts_with("x", ""));
    assert!(equals_ignore_ascii_case("High-Res", "hIGH-rES"));
    assert!(!equals_ignore_ascii_case("High-Res", "High-Re"));
    assert!(!equals_ignore_ascii_case("a", "b"));
    assert_eq!(strip_suffix("a.png", ".png"), Some("a".to_string()));
    assert_eq!(strip_suffix("a.png", ".jpg"), None);
}
