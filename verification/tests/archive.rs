use std::io::Write;

use cubil::updater::extract_binary;

fn tar_gz(files: &[(&str, &[u8])]) -> Vec<u8> {
    let mut builder = tar::Builder::new(Vec::new());
    for (path, data) in files {
        let mut header = tar::Header::new_gnu();
        header.set_size(data.len() as u64);
        header.set_mode(0o755);
        header.set_cksum();
        builder.append_data(&mut header, path, *data).unwrap();
    }
    let tar_bytes = builder.into_inner().unwrap();
    let mut enc = flate2::write::GzEncoder::new(Vec::new(), flate2::Compression::default());
    enc.write_all(&tar_bytes).unwrap();
    enc.finish().unwrap()
}

#[test]
fn extract_binary_takes_first_entry_named_cubil() {
    let archive = tar_gz(&[
        ("README.md", b"docs"),
        ("dist/cubil", b"NEW_BINARY_BYTES"),
        ("cubil", b"second"),
    ]);
    assert_eq!(extract_binary(&archive).unwrap(), b"NEW_BINARY_BYTES".to_vec());
}

#[test]
fn extract_binary_reports_missing_binary() {
    let archive = tar_gz(&[("README.md", b"docs"), ("cubil-helper", b"x")]);
    assert_eq!(extract_binary(&archive).unwrap_err(), "'cubil' not found in tarball");
}

#[test]
fn extract_binary_reports_undecodable_bytes() {
    let err = extract_binary(b"not a gzip stream at all").unwrap_err();
    assert!(err.starts_with("tar "), "unexpected error: {err}");
}

#[test]
fn extract_binary_ignores_damage_after_the_binary() {
    let big: Vec<u8> = (0..200_000u32).map(|i| (i * 7919 % 251) as u8).collect();
    let archive = tar_gz(&[("cubil", b"BIN"), ("blob", &big)]);
    let cut = &archive[..archive.len() / 2];
    assert_eq!(extract_binary(cut).unwrap(), b"BIN".to_vec());
}

#[test]
fn extract_binary_reports_damage_before_the_binary_as_a_walk_failure() {
    let big: Vec<u8> = (0..200_000u32).map(|i| (i * 7919 % 251) as u8).collect();
    let archive = tar_gz(&[("blob", &big), ("cubil", b"BIN")]);
    let cut = &archive[..archive.len() / 2];
    let err = extract_binary(cut).unwrap_err();
    assert!(err.starts_with("tar entry error: "), "unexpected error: {err}");
}
