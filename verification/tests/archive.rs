use milter_separator::names::{file_name, numbered_name};
use milter_separator::zipper::{
    create_passworded_zip, create_zip, create_zip_from_dir, create_zip_from_files,
    generate_password, password_of, plan_saved_names, PasswordStrength,
};
use std::io::{Cursor, Read};
use std::path::Path;

#[test]
fn test_generate_passwords() {
    let p1 = generate_password(PasswordStrength::Low);
    assert!(p1.len() >= 8);

    let p2 = generate_password(PasswordStrength::Medium);
    assert!(p2.len() >= 12);

    let p3 = generate_password(PasswordStrength::High);
    assert!(p3.len() >= 16);
}

#[test]
fn test_create_zip_and_passworded_zip() {
    let attachments = vec![("foo.txt", b"hello world".to_vec())];
    let plain = create_zip(attachments.clone()).expect("create_zip failed");
    assert_eq!(read_entry(&plain, 0, None), ("foo.txt".to_string(), b"hello world".to_vec()));

    let pw = generate_password(PasswordStrength::Medium);
    let locked = create_passworded_zip(attachments, &pw).expect("create_passworded_zip failed");
    assert_eq!(read_entry(&locked, 0, Some(&pw)), ("foo.txt".to_string(), b"hello world".to_vec()));
}

fn read_entry(bytes: &[u8], i: usize, password: Option<&str>) -> (String, Vec<u8>) {
    let mut archive = zip::ZipArchive::new(Cursor::new(bytes.to_vec())).unwrap();
    let mut data = Vec::new();
    let mut entry = match password {
        Some(p) => archive.by_index_decrypt(i, p.as_bytes()).unwrap(),
        None => archive.by_index(i).unwrap(),
    };
    let name = entry.name().to_string();
    entry.read_to_end(&mut data).unwrap();
    (name, data)
}

fn kinds(p: &str) -> (usize, usize, usize, usize) {
    let symbols = "!@#$%^&*()-_=+[]{};:,<>.?/";
    (
        p.chars().filter(|c| c.is_ascii_uppercase()).count(),
        p.chars().filter(|c| c.is_ascii_lowercase()).count(),
        p.chars().filter(|c| c.is_ascii_digit()).count(),
        p.chars().filter(|c| symbols.contains(*c)).count(),
    )
}

#[test]
fn passwords_have_their_strength() {
    for _ in 0..50 {
        let low = generate_password(PasswordStrength::Low);
        assert_eq!(low.len(), 8);
        assert_eq!(kinds(&low).3, 0);
        let medium = generate_password(PasswordStrength::Medium);
        let (u, l, d, s) = kinds(&medium);
        assert_eq!(u + l + d + s, 12);
        assert!(u >= 1 && l >= 1 && d >= 1 && s == 1);
        let high = generate_password(PasswordStrength::High);
        let (u, l, d, s) = kinds(&high);
        assert_eq!(u + l + d + s, 16);
        assert!(u >= 1 && l >= 1 && d >= 1 && s >= 1);
    }
    let first = generate_password(PasswordStrength::High);
    assert_ne!(first, generate_password(PasswordStrength::High));
}

#[test]
fn passwords_follow_what_is_drawn() {
    let low = password_of(PasswordStrength::Low, &b"aB3dE6gH".to_vec(), &vec![]);
    assert_eq!(low, "aB3dE6gH");

    // One of each kind, then kinds and characters in turn.
    let mut draws = b"Qz7".to_vec();
    draws.push(2);
    for (kind, draw) in [(0, b'a'), (1, b'B'), (2, b'3'), (0, b'd'), (1, b'E'), (2, b'6'), (0, b'g'), (1, b'H')] {
        draws.push(kind);
        draws.push(draw);
    }
    let straight: Vec<usize> = (0..12).collect();
    assert_eq!(password_of(PasswordStrength::Medium, &draws, &straight), "Qz7#aB3dE6gH");
    let back: Vec<usize> = (0..12).rev().collect();
    assert_eq!(password_of(PasswordStrength::Medium, &draws, &back), "Hg6Ed3Ba#7zQ");
    let turned = vec![3, 4, 5, 6, 7, 8, 9, 10, 11, 0, 1, 2];
    assert_eq!(password_of(PasswordStrength::Medium, &draws, &turned), "#aB3dE6gHQz7");

    for draw in [0, 25, 13, 1] {
        draws.push(3);
        draws.push(draw);
    }
    let straight: Vec<usize> = (0..16).collect();
    assert_eq!(password_of(PasswordStrength::High, &draws, &straight), "Qz7#aB3dE6gH!/+@");
}

#[test]
fn strengths_have_names() {
    assert!(matches!(PasswordStrength::from_str("LOW"), Some(PasswordStrength::Low)));
    assert!(matches!(PasswordStrength::from_str("medium"), Some(PasswordStrength::Medium)));
    assert!(matches!(PasswordStrength::from_str("High"), Some(PasswordStrength::High)));
    assert!(PasswordStrength::from_str("highest").is_none());
}

fn files(list: &[(&str, &str)]) -> Vec<(String, Vec<u8>)> {
    list.iter().map(|(n, d)| (n.to_string(), d.as_bytes().to_vec())).collect()
}

#[test]
fn archives_hold_their_files_in_order() {
    let bytes = create_zip_from_files(&files(&[("b.txt", "two"), ("日.txt", ""), ("a.txt", "one")]), Some("pw")).unwrap();
    assert_eq!(read_entry(&bytes, 0, Some("pw")), ("b.txt".to_string(), b"two".to_vec()));
    assert_eq!(read_entry(&bytes, 1, Some("pw")), ("日.txt".to_string(), vec![]));
    assert_eq!(read_entry(&bytes, 2, Some("pw")), ("a.txt".to_string(), b"one".to_vec()));
    let mut archive = zip::ZipArchive::new(Cursor::new(bytes)).unwrap();
    assert_eq!(archive.len(), 3);
    assert!(archive.by_index(0).is_err());
    let plain = create_zip_from_files(&files(&[("x", "y")]), None).unwrap();
    assert_eq!(read_entry(&plain, 0, None), ("x".to_string(), b"y".to_vec()));
    let empty = create_zip_from_files(&files(&[]), Some("")).unwrap();
    assert_eq!(zip::ZipArchive::new(Cursor::new(empty)).unwrap().len(), 0);
}

#[test]
fn some_files_cannot_be_packed() {
    assert!(create_zip_from_files(&files(&[("a", "1"), ("a", "2")]), None).is_err());
    assert!(create_zip_from_files(&files(&[("a", "1")]), Some("")).is_err());
    let long = "n".repeat(0x10000);
    assert!(create_zip_from_files(&files(&[(&long, "1")]), None).is_err());
    let longest = "n".repeat(0xFFFF);
    assert!(create_zip_from_files(&files(&[(&longest, "1")]), None).is_ok());
    assert!(create_passworded_zip(vec![("a", vec![1]), ("a", vec![2])], "pw").is_err());
}

#[test]
fn files_of_a_directory_are_packed_by_their_names() {
    let bytes = create_zip_from_dir(&files(&[("/tmp/x/one.txt", "1"), ("/", "2")]), None).unwrap();
    assert_eq!(read_entry(&bytes, 0, None).0, "one.txt");
    assert_eq!(read_entry(&bytes, 1, None).0, "file");
}

#[test]
fn names_are_those_of_the_system() {
    for path in [
        "a.txt", "/a/b", "a/", "a//", "a/.", "a/./", ".", "..", "a/..", "/", "", "./a", "../x", "a/b/../c",
        ".hidden", "a\\b", "日/本", "...", "a/...", "//x//",
    ] {
        let expected = Path::new(path).file_name().map(|s| s.to_string_lossy().into_owned());
        assert_eq!(file_name(path), expected, "{}", path);
    }
}

#[test]
fn numbers_stand_before_the_extension() {
    for name in ["a.txt", "a", ".bashrc", "a.tar.gz", "a.", "..x", ".a.b", "日.本"] {
        let p = Path::new(name);
        let stem = p.file_stem().unwrap().to_string_lossy().into_owned();
        let expected = match p.extension() {
            Some(e) => format!("{}_{}.{}", stem, 12, e.to_string_lossy()),
            None => format!("{}_{}", stem, 12),
        };
        assert_eq!(numbered_name(name, 12), expected);
    }
}

#[test]
fn saved_names_differ_and_stay_inside() {
    let strings = |l: &[&str]| l.iter().map(|s| s.to_string()).collect::<Vec<String>>();
    let names = plan_saved_names(
        &strings(&["a.txt", "../../a.txt", "dir/a.txt", "..", "/", "b", "a_1.txt"]),
        &strings(&["b"]),
    );
    assert_eq!(
        names,
        strings(&["a.txt", "a_1.txt", "a_2.txt", "attachment.bin", "attachment_1.bin", "b_1", "a_1_1.txt"])
    );
}
