use conch::rsync::progress_bytes_transferred;
use conch::rsync::{
    build_ssh_cmd, compression_args, local_rsync_check, remote_rsync_check, rsync_download_args,
    rsync_upload_args, shell_quote, SshConnectInfo,
};

fn info(port: u16, key: Option<&str>) -> SshConnectInfo {
    SshConnectInfo { host: "example.com".into(), port, user: "alice".into(), identity_file: key.map(String::from) }
}

#[test]
fn shell_quote_wraps_and_escapes() {
    assert_eq!(shell_quote("plain"), "'plain'");
    assert_eq!(shell_quote(""), "''");
    assert_eq!(shell_quote("it's"), "'it'\\''s'");
    assert_eq!(shell_quote("''"), "''\\'''\\'''");
}

#[test]
fn ssh_cmd_default_port_no_key() {
    assert_eq!(
        build_ssh_cmd(&info(22, None)),
        "ssh -o StrictHostKeyChecking=no -o UserKnownHostsFile=/dev/null -o BatchMode=yes"
    );
}

#[test]
fn ssh_cmd_with_port_and_key() {
    assert_eq!(
        build_ssh_cmd(&info(2222, Some("/home/a/my key"))),
        "ssh -p 2222 -i '/home/a/my key' -o StrictHostKeyChecking=no -o UserKnownHostsFile=/dev/null -o BatchMode=yes"
    );
}

#[test]
fn compression_choice() {
    assert_eq!(compression_args(true), vec!["--zc=zstd", "--compress-level=19"]);
    assert_eq!(compression_args(false), vec!["-z", "--compress-level=9"]);
}

#[test]
fn upload_and_download_arguments() {
    let i = info(22, None);
    let up = rsync_upload_args(&i, "/tmp/f.txt", "/srv/f.txt", false);
    assert_eq!(up.len(), 11);
    assert_eq!(&up[..6], &["-r", "--times", "--perms", "--info=progress2", "--no-human-readable", "-e"]);
    assert_eq!(up[6], build_ssh_cmd(&i));
    assert_eq!(&up[7..], &["-z", "--compress-level=9", "/tmp/f.txt", "alice@example.com:/srv/f.txt"]);
    let down = rsync_download_args(&i, "/srv/f.txt", "/tmp/f.txt", true);
    assert_eq!(&down[7..], &["--zc=zstd", "--compress-level=19", "alice@example.com:/srv/f.txt", "/tmp/f.txt"]);
}

#[test]
fn rsync_probes() {
    let l = local_rsync_check(true, "rsync  version 3.2.7\n  Compress list: zstd lz4 zlibx zlib none");
    assert!(l.available && l.has_zstd);
    let l = local_rsync_check(true, "rsync  version 3.1.3");
    assert!(l.available && !l.has_zstd);
    let l = local_rsync_check(false, "zstd");
    assert!(!l.available && !l.has_zstd);
    let r = remote_rsync_check(Some("  \n"));
    assert!(!r.available && !r.has_zstd);
    let r = remote_rsync_check(Some("rsync version 3.2.3 zstd"));
    assert!(r.available && r.has_zstd);
    let r = remote_rsync_check(None);
    assert!(!r.available);
}

#[test]
fn progress_line_byte_count() {
    assert_eq!(progress_bytes_transferred("    1,234,567  45%   12.34MB/s    0:00:03"), Some(1234567));
    assert_eq!(progress_bytes_transferred("45%  1,000  1.00kB/s"), Some(1000));
    assert_eq!(progress_bytes_transferred("18446744073709551616 7"), Some(7));
    assert_eq!(progress_bytes_transferred("+12 x"), Some(12));
    assert_eq!(progress_bytes_transferred(",,, 12.5MB/s"), None);
    assert_eq!(progress_bytes_transferred(""), None);
    assert_eq!(progress_bytes_transferred("  \t "), None);
}
