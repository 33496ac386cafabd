use beam::upload::{pick_unique_filename, pick_unique_folder_path};
use beam::listing::{calculate_total_size, count_files, directory_entry, file_entry, sort_items, FileItem, is_listed, item_relative_path};
use beam::table::StrMap;
use beam::upload::{
    expired_batches, generate_batch_id, batch_id_from, get_metadata_path, get_remapped_folder_path, mapping_belongs_to_batch,
    new_upload_id, partial_path, plan_chunk, plan_upload_name, remove_batch_mappings, truncate_chunk_if_oversized,
    unique_file_name_candidate, unique_folder_name_candidate, upload_expired, upload_id_allowed, upload_path_parts,
    validate_extension, validate_upload, ChunkPlan, UploadRejection,
};
use beam::batch::is_valid_batch_id;

#[test]
fn metadata_lives_under_the_upload_dir() {
    assert_eq!(get_metadata_path("/data/uploads", "abc"), "/data/uploads/.metadata/abc.meta");
    assert_eq!(get_metadata_path("/data/uploads/", "abc"), "/data/uploads/.metadata/abc.meta");
    assert!(upload_id_allowed("0123abcdef"));
    assert!(!upload_id_allowed("../x"));
    assert!(!upload_id_allowed("a..b"));
    assert!(upload_id_allowed("a.b.c"));
    assert_eq!(partial_path("/u/f.txt"), "/u/f.txt.partial");
}

#[test]
fn validate_upload_reports_each_refusal() {
    assert!(validate_upload("a.txt", 10, 100, None, 0).is_ok());
    assert!(matches!(validate_upload("", 10, 100, None, 0), Err(UploadRejection::MissingFilename)));
    match validate_upload("a.txt", 101, 100, None, 0) {
        Err(UploadRejection::FileTooLarge { limit }) => assert_eq!(limit, 100),
        _ => panic!("expected FileTooLarge"),
    }
    assert!(matches!(validate_upload("a.txt", 10, 100, Some(50), 45), Err(UploadRejection::StorageLimitExceeded)));
    assert!(validate_upload("a.txt", 5, 100, Some(50), 45).is_ok());
    let (status, msg) = UploadRejection::StorageLimitExceeded.status_and_message();
    assert_eq!(status, 507);
    assert_eq!(msg, "Storage limit exceeded");
}

#[test]
fn validate_extension_checks_the_allow_list() {
    let allowed = vec![".txt".to_string(), ".png".to_string()];
    assert!(validate_extension(Some(&allowed), "a/b.TXT").is_ok());
    assert!(validate_extension(Some(&allowed), "noext").is_ok());
    assert!(validate_extension(None, "x.exe").is_ok());
    match validate_extension(Some(&allowed), "x.exe") {
        Err(UploadRejection::ExtensionNotAllowed { received }) => assert_eq!(received, ".exe"),
        _ => panic!("expected refusal"),
    }
}

#[test]
fn generated_ids_are_well_formed() {
    let b = generate_batch_id();
    assert!(is_valid_batch_id(&b), "{b}");
    assert_eq!(batch_id_from(1719000000000, "AbCdEf123"), "1719000000000-abcdef123");
    assert_eq!(batch_id_from(-5, "Z"), "-5-z");
    let id = new_upload_id();
    assert!(!id.is_empty() && id.chars().all(|c| c.is_ascii_hexdigit() && !c.is_ascii_uppercase()));
    assert!(upload_id_allowed(&id));
}

#[test]
fn unique_name_candidates() {
    assert_eq!(unique_file_name_candidate("/up/dir/report.pdf", "/up", 1), "/up/dir/report (1).pdf");
    assert_eq!(unique_file_name_candidate("/up/noext", "/up", 12), "/up/noext (12)");
    assert_eq!(unique_file_name_candidate("f.txt", "/up", 2), "f (2).txt");
    assert_eq!(unique_folder_name_candidate("/up/photos", 3), "/up/photos (3)");
}

#[test]
fn upload_names_are_sanitized_and_normalized() {
    assert_eq!(plan_upload_name("folder/sub folder/my file.txt"), "folder/sub_folder/my_file.txt");
    assert_eq!(plan_upload_name("../../etc/passwd"), "unnamed_file.txt");
    assert_eq!(upload_path_parts("a//b/c.txt"), vec!["a", "b", "c.txt"]);
}

#[test]
fn chunks_are_cut_to_the_file_size() {
    assert_eq!(plan_chunk(0, 0, 10), ChunkPlan::Empty);
    assert_eq!(plan_chunk(5, 10, 10), ChunkPlan::AlreadyComplete);
    assert_eq!(plan_chunk(4, 0, 10), ChunkPlan::Write { write_size: 4, new_received: 4, completes: false });
    assert_eq!(plan_chunk(8, 6, 10), ChunkPlan::Write { write_size: 4, new_received: 10, completes: true });
    let (bytes, n, rec) = truncate_chunk_if_oversized(vec![1, 2, 3, 4, 5], 7, 10);
    assert_eq!((bytes, n, rec), (vec![1, 2, 3], 3, 10));
    let (bytes, n, rec) = truncate_chunk_if_oversized(vec![1, 2], 0, 10);
    assert_eq!((bytes, n, rec), (vec![1, 2], 2, 2));
    let (bytes, n, rec) = truncate_chunk_if_oversized(vec![1, 2], 12, 10);
    assert_eq!((bytes, n, rec), (vec![], 0, 10));
}

#[test]
fn batch_folders_are_remapped_once_per_batch() {
    let mut m: StrMap<String> = StrMap::new();
    let parts = vec!["beam_test_no_such_folder_x1".to_string(), "a.txt".to_string()];
    let (p, created) = get_remapped_folder_path("/nonexistent_upload_root", &mut m, &parts, "1-abcdefgh");
    assert_eq!(p, "/nonexistent_upload_root/beam_test_no_such_folder_x1/a.txt");
    assert_eq!(created.as_deref(), Some("/nonexistent_upload_root/beam_test_no_such_folder_x1"));
    let parts2 = vec!["beam_test_no_such_folder_x1".to_string(), "sub".to_string(), "b.txt".to_string()];
    let (p2, created2) = get_remapped_folder_path("/nonexistent_upload_root", &mut m, &parts2, "1-abcdefgh");
    assert_eq!(p2, "/nonexistent_upload_root/beam_test_no_such_folder_x1/sub/b.txt");
    assert!(created2.is_none());
    assert!(mapping_belongs_to_batch("beam_test_no_such_folder_x1-1-abcdefgh", "1-abcdefgh"));
    remove_batch_mappings(&mut m, "1-abcdefgh");
    assert_eq!(m.len(), 0);
}

#[test]
fn idle_batches_and_uploads_expire() {
    let mut a: StrMap<u64> = StrMap::new();
    a.insert("old".to_string(), 0);
    a.insert("new".to_string(), 1_000_000);
    let e = expired_batches(&a, 1_800_000, 1_800_000);
    assert_eq!(e, vec!["old".to_string()]);
    assert!(upload_expired(0, 1_800_000, 1_800_000));
    assert!(!upload_expired(5_000_000, 1_800_000, 1_800_000));
}

#[test]
fn listing_is_sorted_and_counted() {
    let f1 = file_entry("b.TXT".to_string(), "b.TXT".to_string(), 10, 0);
    let f2 = file_entry("a.bin".to_string(), "a.bin".to_string(), 5, 0);
    let inner = file_entry("c".to_string(), "z/c".to_string(), 7, 0);
    let d = directory_entry("z".to_string(), "z".to_string(), 0, vec![inner]);
    let items = sort_items(vec![f1, d, f2]);
    let names: Vec<String> = items.iter().map(|i| i.name().clone()).collect();
    assert_eq!(names, vec!["z", "a.bin", "b.TXT"]);
    assert_eq!(calculate_total_size(&items), 22);
    assert_eq!(count_files(&items), 3);
    match &items[2] {
        FileItem::File { extension, formatted_size, .. } => {
            assert_eq!(extension, ".txt");
            assert_eq!(formatted_size, "10.00B");
        }
        _ => panic!("expected a file"),
    }
    assert!(!is_listed(".metadata"));
    assert!(is_listed("x"));
    assert_eq!(item_relative_path("", "x"), "x");
    assert_eq!(item_relative_path("d", "x"), "d/x");
}

#[test]
fn unique_names_follow_the_existence_answers() {
    assert_eq!(pick_unique_filename("up/a.txt", "up", &vec![false]), Some("up/a.txt".to_string()));
    assert_eq!(pick_unique_filename("up/a.txt", "up", &vec![true, true, false, false]), Some("up/a (2).txt".to_string()));
    assert_eq!(pick_unique_filename("a.txt", "up", &vec![true, false]), Some("a (1).txt".to_string()));
    assert_eq!(pick_unique_filename("up/a.txt", "up", &vec![true, true]), None);
    assert_eq!(pick_unique_folder_path("up/docs", &vec![true, false]), Some("up/docs (1)".to_string()));
    assert_eq!(pick_unique_folder_path("up/docs", &vec![false, true]), Some("up/docs".to_string()));
    assert_eq!(pick_unique_folder_path("up/docs", &vec![]), None);
}
