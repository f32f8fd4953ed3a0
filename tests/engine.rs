use md5tree::check::{changed_entries, format_manifest_line, unreadable_digest};
use md5tree::digest::{hash_bytes, hash_chunks, StreamingHasher};
use md5tree::manifest::{parse_line, parse_manifest, ManifestEntry};
use md5tree::mode::{select_mode, split_args, Mode};
use md5tree::path_map::{build_path_map, create_lists, HashedFile, PathMap};
use md5tree::reconcile::{reconcile, reconcile_files, Observation};
use md5tree::walk::{DirEntry, PathKind, Walk};
use md5tree::EngineError;

const HELLO: &str = "5d41402abc4b2a76b9719d911017c592";
const WORLD: &str = "7d793037a0760186574b0282f2f435e7";

fn s(x: &str) -> String {
    x.to_string()
}

fn map_of(pairs: &[(&str, &str)]) -> PathMap {
    let mut m = PathMap::new();
    for (p, d) in pairs {
        m.insert(s(p), s(d));
    }
    m
}

fn hashed(path: &str, digest: &str) -> HashedFile {
    HashedFile { path: s(path), digest: s(digest) }
}

#[test]
fn digest_of_known_contents() {
    assert_eq!(hash_bytes(b"hello"), HELLO);
    assert_eq!(hash_bytes(b"world"), WORLD);
    assert_eq!(hash_bytes(b""), "d41d8cd98f00b204e9800998ecf8427e");
}

#[test]
fn digest_is_deterministic_and_distinguishes_contents() {
    assert_eq!(hash_bytes(b"hello"), hash_bytes(b"hello"));
    assert_ne!(hash_bytes(b"hello"), hash_bytes(b"hellp"));
}

#[test]
fn streaming_ignores_chunk_boundaries() {
    let mut h = StreamingHasher::new();
    h.update(b"he");
    h.update(b"");
    h.update(b"llo");
    assert_eq!(h.finalize(), HELLO);
    let chunks = vec![b"hel".to_vec(), b"lo".to_vec()];
    assert_eq!(hash_chunks(&chunks), HELLO);
    assert_eq!(hash_chunks(&vec![]), hash_bytes(b""));
}

#[test]
fn digest_is_lowercase_hex_of_fixed_length() {
    let big: Vec<u8> = (0..5000u32).map(|i| (i % 251) as u8).collect();
    let d = hash_bytes(&big);
    assert_eq!(d.len(), 32);
    assert!(d.chars().all(|c| c.is_ascii_digit() || ('a'..='f').contains(&c)));
    let chunks: Vec<Vec<u8>> = big.chunks(1024).map(|c| c.to_vec()).collect();
    assert_eq!(hash_chunks(&chunks), d);
}

#[test]
fn walk_lists_files_not_directories() {
    let mut w = Walk::start(s("root"), PathKind::Directory).unwrap();
    assert!(!w.is_done());
    let d = w.next_dir().unwrap();
    assert_eq!(d, "root");
    w.visit(&vec![
        DirEntry { path: s("root/a.txt"), is_dir: false },
        DirEntry { path: s("root/sub"), is_dir: true },
        DirEntry { path: s("root/c.txt"), is_dir: false },
    ]);
    let d = w.next_dir().unwrap();
    assert_eq!(d, "root/sub");
    w.visit(&vec![DirEntry { path: s("root/sub/b.txt"), is_dir: false }]);
    assert!(w.is_done());
    assert!(w.next_dir().is_none());
    assert_eq!(w.files(), &vec![s("root/a.txt"), s("root/c.txt"), s("root/sub/b.txt")]);
}

#[test]
fn walk_of_a_file_or_missing_root() {
    let w = Walk::start(s("x.bin"), PathKind::File).unwrap();
    assert!(w.is_done());
    assert_eq!(w.files(), &vec![s("x.bin")]);
    assert!(matches!(Walk::start(s("nope"), PathKind::Missing), Err(EngineError::PathNotFound)));
}

#[test]
fn build_keys_paths_relative_to_root() {
    let files = vec![hashed("root/a.txt", HELLO), hashed("root/sub/b.txt", WORLD)];
    let m = build_path_map(&s("root"), &files).unwrap();
    assert_eq!(m.len(), 2);
    assert_eq!(m.get(&s("a.txt")), Some(&s(HELLO)));
    assert_eq!(m.get(&s("sub/b.txt")), Some(&s(WORLD)));
    assert_eq!(m.get(&s("sub")), None);
    assert_eq!(m.get(&s("root/a.txt")), None);
}

#[test]
fn build_fails_on_unrelatable_path() {
    let files = vec![hashed("rel/a.txt", HELLO)];
    assert!(build_path_map(&s("/abs/root"), &files).is_none());
    let lists = create_lists(&vec![s("/abs/root")], &vec![files]);
    assert!(matches!(lists, Err(EngineError::UnrelatedPath)));
}

#[test]
fn path_map_insert_replaces() {
    let mut m = PathMap::new();
    m.insert(s("a"), s("1"));
    m.insert(s("b"), s("2"));
    m.insert(s("a"), s("3"));
    assert_eq!(m.len(), 2);
    assert_eq!(m.path_at(0), "a");
    assert_eq!(m.digest_at(0), "3");
    assert_eq!(m.get(&s("b")), Some(&s("2")));
}

#[test]
fn identical_copies_reconcile_to_nothing() {
    let pairs = [("a.txt", HELLO), ("sub/b.txt", WORLD)];
    let maps = vec![map_of(&pairs), map_of(&pairs), map_of(&pairs)];
    assert!(reconcile(&maps).is_empty());
    assert!(reconcile(&vec![]).is_empty());
}

#[test]
fn missing_file_is_one_record() {
    let maps = vec![map_of(&[("a.txt", HELLO), ("b.txt", WORLD)]), map_of(&[("a.txt", HELLO)])];
    let r = reconcile(&maps);
    assert_eq!(r.len(), 1);
    assert_eq!(r[0].path, "b.txt");
    assert!(matches!(&r[0].observations[0], Observation::Present(d) if d == WORLD));
    assert!(matches!(r[0].observations[1], Observation::Absent));
    assert_eq!(r[0].to_line(), format!("b.txt ({} | non-exist)", WORLD));
}

#[test]
fn changed_file_is_one_record() {
    let maps = vec![map_of(&[("a.txt", HELLO), ("c", "x")]), map_of(&[("c", "x"), ("a.txt", WORLD)])];
    let r = reconcile(&maps);
    assert_eq!(r.len(), 1);
    assert_eq!(r[0].path, "a.txt");
    assert_eq!(r[0].to_line(), format!("a.txt ({} | {})", HELLO, WORLD));
}

#[test]
fn hello_world_trees_diverge() {
    let roots = vec![s("A"), s("B")];
    let files = vec![
        vec![hashed("A/a.txt", &hash_bytes(b"hello"))],
        vec![hashed("B/a.txt", &hash_bytes(b"world"))],
    ];
    let maps = create_lists(&roots, &files).unwrap();
    let r = reconcile(&maps);
    assert_eq!(r.len(), 1);
    assert_eq!(
        r[0].to_line(),
        "a.txt (5d41402abc4b2a76b9719d911017c592 | 7d793037a0760186574b0282f2f435e7)"
    );
}

#[test]
fn reconcile_order_is_first_discovery() {
    let maps = vec![
        map_of(&[("z", "1"), ("a", "1")]),
        map_of(&[("m", "1"), ("a", "2")]),
        map_of(&[("z", "1"), ("a", "2"), ("m", "1"), ("q", "1")]),
    ];
    let r = reconcile(&maps);
    let paths: Vec<&str> = r.iter().map(|x| x.path.as_str()).collect();
    assert_eq!(paths, vec!["z", "a", "m", "q"]);
    assert_eq!(r[0].to_line(), "z (1 | non-exist | 1)");
    assert_eq!(r[3].to_line(), "q (non-exist | non-exist | 1)");
}

#[test]
fn unreadable_file_diverges_from_digest() {
    let maps = vec![map_of(&[("a", HELLO)]), map_of(&[("a", &unreadable_digest())])];
    let r = reconcile(&maps);
    assert_eq!(r[0].to_line(), format!("a ({} | deleted)", HELLO));
}

#[test]
fn file_comparison() {
    let names = vec![s("x.txt"), s("y.txt")];
    assert!(reconcile_files(&names, &vec![s(HELLO), s(HELLO)]).is_none());
    let rec = reconcile_files(&names, &vec![s(HELLO), s(WORLD)]).unwrap();
    assert_eq!(rec.to_line(), format!("x.txt,y.txt ({} | {})", HELLO, WORLD));
    let three = vec![s("p"), s("q"), s("r")];
    let rec = reconcile_files(&three, &vec![s("1"), s("1"), s("2")]).unwrap();
    assert_eq!(rec.to_line(), "p,q,r (1 | 1 | 2)");
}

#[test]
fn check_of_unmodified_tree_is_silent() {
    let entries = vec![
        ManifestEntry { path: s("a.txt"), digest: s(HELLO) },
        ManifestEntry { path: s("b.txt"), digest: s(WORLD) },
    ];
    assert!(changed_entries(&entries, &vec![s(HELLO), s(WORLD)]).is_empty());
}

#[test]
fn check_reports_deleted_file() {
    let entries = vec![
        ManifestEntry { path: s("a.txt"), digest: s(HELLO) },
        ManifestEntry { path: s("b.txt"), digest: s(WORLD) },
    ];
    let r = changed_entries(&entries, &vec![s(HELLO), unreadable_digest()]);
    assert_eq!(r.len(), 1);
    assert_eq!(r[0].to_line(), format!("b.txt ({} -> deleted)", WORLD));
    let r = changed_entries(&entries, &vec![s(WORLD), s(WORLD)]);
    assert_eq!(r[0].to_line(), format!("a.txt ({} -> {})", HELLO, WORLD));
}

#[test]
fn manifest_lines_parse() {
    let e = parse_line(&format!("{}  dir/a.txt", HELLO)).unwrap().unwrap();
    assert_eq!(e.digest, HELLO);
    assert_eq!(e.path, "dir/a.txt");
    let e = parse_line("\tabc \t x\r").unwrap().unwrap();
    assert_eq!((e.digest.as_str(), e.path.as_str()), ("abc", "x"));
    let e = parse_line("abc\u{00A0}x\u{3000}").unwrap().unwrap();
    assert_eq!((e.digest.as_str(), e.path.as_str()), ("abc", "x"));
    assert!(parse_line("").unwrap().is_none());
    assert!(parse_line("   ").unwrap().is_none());
    assert_eq!(format_manifest_line(&s(HELLO), &s("/t/a.txt")), format!("{} /t/a.txt", HELLO));
}

#[test]
fn malformed_manifest_is_rejected_whole() {
    assert!(matches!(parse_line("abc"), Err(EngineError::MalformedManifest)));
    assert!(matches!(parse_line("abc def ghi"), Err(EngineError::MalformedManifest)));
    let lines = vec![format!("{} a.txt", HELLO), s("onlyonetoken"), format!("{} b.txt", WORLD)];
    assert!(matches!(parse_manifest(&lines), Err(EngineError::MalformedManifest)));
    let lines = vec![format!("{} a.txt", HELLO), s(""), format!("{} b.txt", WORLD)];
    let es = parse_manifest(&lines).unwrap();
    assert_eq!(es.len(), 2);
    assert_eq!(es[1].path, "b.txt");
    assert_eq!(es[1].digest, WORLD);
}

#[test]
fn mode_selection() {
    let (f, d, m) = (PathKind::File, PathKind::Directory, PathKind::Missing);
    assert_eq!(select_mode(false, &vec![]), Err(EngineError::Usage));
    assert_eq!(select_mode(false, &vec![d]), Ok(Mode::Generate));
    assert_eq!(select_mode(true, &vec![f]), Ok(Mode::Check));
    assert_eq!(select_mode(false, &vec![f, f]), Ok(Mode::CompareFiles));
    assert_eq!(select_mode(false, &vec![d, d, m]), Ok(Mode::CompareTrees));
    assert_eq!(select_mode(false, &vec![f, d]), Err(EngineError::Usage));
}

#[test]
fn argument_splitting() {
    let (check, paths) = split_args(&vec![s("a"), s("--check"), s("b")]);
    assert!(check);
    assert_eq!(paths, vec![s("a"), s("b")]);
    let (check, paths) = split_args(&vec![s("a")]);
    assert!(!check);
    assert_eq!(paths, vec![s("a")]);
}
