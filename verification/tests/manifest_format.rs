use lux_patcher::manifest::{parse_manifest, ManifestError, Section};
use lux_patcher::md5sum::Md5Sum;

const H1: &str = "00112233445566778899aabbccddeeff";
const H2: &str = "ffeeddccbbaa99887766554433221100";
const H3: &str = "0123456789abcdef0123456789abcdef";

fn sample_text() -> String {
    format!(
        "[version]\n82,{h},trunk\n[files]\nb/second.txt,20,{h2},9,{h3},{h}\na/b.txt,10,{h1},8,{h3},{h2}\n",
        h = H3,
        h1 = H1,
        h2 = H2,
        h3 = H3,
    )
}

#[test]
fn section_headers() {
    assert_eq!(Section::Version.as_header(), "[version]");
    assert_eq!(Section::Files.as_header(), "[files]");
}

#[test]
fn manifest_parse_ok() {
    let m = parse_manifest(sample_text().as_str()).unwrap();
    assert_eq!(m.version.version, 82);
    assert_eq!(m.version.name, "trunk");
    assert_eq!(m.version.hash, Md5Sum::parse(H3).unwrap());
    assert_eq!(m.file_count(), 2);
    let f = m.get("a/b.txt").unwrap();
    assert_eq!(f.filesize, 10);
    assert_eq!(f.hash, Md5Sum::parse(H1).unwrap());
    assert_eq!(f.compressed_size, 8);
    assert_eq!(f.compressed_hash, Md5Sum::parse(H3).unwrap());
    assert!(m.get("missing.txt").is_none());
    // Files are held in path order, whatever order the text listed them in.
    let (p0, _) = m.file_at(0);
    let (p1, _) = m.file_at(1);
    assert_eq!(p0.as_str(), "a/b.txt");
    assert_eq!(p1.as_str(), "b/second.txt");
}

#[test]
fn manifest_version_name_may_hold_commas() {
    let text = format!("[version]\n1,{},a,b,c\n[files]\n", H1);
    let m = parse_manifest(text.as_str()).unwrap();
    assert_eq!(m.version.name, "a,b,c");
    assert_eq!(m.file_count(), 0);
}

#[test]
fn manifest_errors() {
    assert!(matches!(
        parse_manifest(""),
        Err(ManifestError::MissingHeader(Section::Version))
    ));
    assert!(matches!(
        parse_manifest("[files]\n"),
        Err(ManifestError::ExpectedHeader(Section::Version, _))
    ));
    assert!(matches!(
        parse_manifest("[version]\n"),
        Err(ManifestError::MissingVersionLine)
    ));
    assert!(matches!(
        parse_manifest("[version]\nnot a version line\n"),
        Err(ManifestError::MalformedLine(1))
    ));
    let no_files = format!("[version]\n82,{},trunk\n", H3);
    assert!(matches!(
        parse_manifest(no_files.as_str()),
        Err(ManifestError::MissingHeader(Section::Files))
    ));
    let wrong_files = format!("[version]\n82,{},trunk\nnope\n", H3);
    assert!(matches!(
        parse_manifest(wrong_files.as_str()),
        Err(ManifestError::ExpectedHeader(Section::Files, _))
    ));
    let bad_line = format!("[version]\n82,{},trunk\n[files]\nbroken line\n", H3);
    assert!(matches!(
        parse_manifest(bad_line.as_str()),
        Err(ManifestError::MalformedLine(3))
    ));
}

#[test]
fn manifest_crlf_lines() {
    let text = format!("[version]\r\n82,{},trunk\r\n[files]\r\n", H3);
    let m = parse_manifest(text.as_str()).unwrap();
    assert_eq!(m.version.name, "trunk");
}

#[test]
fn file_line_to_path() {
    let m = parse_manifest(sample_text().as_str()).unwrap();
    let f = m.get("a/b.txt").unwrap();
    // The URL suffix is derived from the hash, not from the path.
    assert_eq!(f.to_path(), format!("0/0/{}.sd0", H1));
}
