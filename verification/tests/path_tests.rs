//! Mount-path safety, mount planning, and mount-table parsing.

use ljc_relay::mountpath::{check_unmount_path, decide_mount, expand_tilde, mkdir_outcome_error,
    mount_point_for, plan_mount, unmount_outcome, validate_mount_path, webdav_url, CmdOutcome,
    MountError, MountOutcome, UnmountDecision};
use ljc_relay::mounttable::{find_webdav_mount, list_mount_lines, parse_mount_line};
use ljc_relay::tls::{cached_cert_usable, pem_to_der, san_entries};

const UUID: &str = "550e8400-e29b-41d4-a716-446655440000";

#[test]
fn tilde_expansion() {
    assert_eq!(expand_tilde("~/Public/mount", "/home/u"), "/home/u/Public/mount");
    assert_eq!(expand_tilde("~", "/home/u"), "/home/u");
    assert_eq!(expand_tilde("/abs/path", "/home/u"), "/abs/path");
    assert_eq!(expand_tilde("x/~", "/home/u"), "x/~");
}

#[test]
fn validate_accepts_contained_path() {
    let r = validate_mount_path("~/Public/mount/pc1", "~/Public/mount", "/home/u");
    assert_eq!(r, Ok("/home/u/Public/mount/pc1".to_string()));
}

#[test]
fn validate_rejects_traversal() {
    let r = validate_mount_path("~/Public/mount/../etc", "~/Public/mount", "/home/u");
    assert_eq!(r, Err("Path must not contain '..'".to_string()));
}

#[test]
fn validate_rejects_outside_base() {
    let r = validate_mount_path("/etc", "~/Public/mount", "/home/u");
    assert_eq!(r, Err("Mount path must be under '~/Public/mount' (got '/etc')".to_string()));
}

#[test]
fn validate_is_idempotent_on_accepted_paths() {
    let once = validate_mount_path("~/Public/mount/pc1", "~/Public/mount", "/home/u").unwrap();
    let twice = validate_mount_path(once.as_str(), "~/Public/mount", "/home/u").unwrap();
    assert_eq!(once, twice);
}

#[test]
fn mount_point_uses_first_eight_id_chars() {
    assert_eq!(
        mount_point_for("/home/u/Public/mount/", UUID),
        "/home/u/Public/mount/ljc-550e8400"
    );
    assert_eq!(mount_point_for("/base", "short"), "/base/ljc-short");
}

#[test]
fn webdav_urls() {
    assert_eq!(webdav_url(false, 17200, UUID), {
        let mut s = "http://127.0.0.1:17200/webdav/".to_string();
        s.push_str(UUID);
        s.push('/');
        s
    });
    assert_eq!(webdav_url(true, 17201, UUID), {
        let mut s = "https://127.0.0.1:17201/webdav/".to_string();
        s.push_str(UUID);
        s.push('/');
        s
    });
}

#[test]
fn plan_mount_rejects_bad_id() {
    let r = plan_mount("not-a-uuid", "~/Public/mount/x", "~/Public/mount", "/home/u", 17200, true);
    match r {
        Err(e) => {
            assert_eq!(e.status(), 400);
            assert_eq!(e.message(), "Invalid client_id format");
        },
        Ok(_) => panic!("expected a rejection"),
    }
}

#[test]
fn plan_mount_rejects_traversal_with_403() {
    let r = plan_mount(UUID, "~/Public/mount/../etc", "~/Public/mount", "/home/u", 17200, true);
    match r {
        Err(e) => assert_eq!(e.status(), 403),
        Ok(_) => panic!("expected a rejection"),
    }
}

#[test]
fn plan_mount_rejects_unknown_client() {
    let r = plan_mount(UUID, "~/Public/mount/x", "~/Public/mount", "/home/u", 17200, false);
    match r {
        Err(e) => {
            assert_eq!(e.status(), 404);
        },
        Ok(_) => panic!("expected a rejection"),
    }
}

#[test]
fn plan_mount_lays_out_point_and_urls() {
    let p = plan_mount(UUID, "~/Public/mount", "~/Public/mount", "/home/u", 17200, true).unwrap();
    assert_eq!(p.mount_point, "/home/u/Public/mount/ljc-550e8400");
    assert!(p.http_url.starts_with("http://127.0.0.1:17200/webdav/"));
    assert!(p.tls_url.starts_with("https://127.0.0.1:17201/webdav/"));
}

fn ran(ok: bool, code: i32, stderr: &str) -> CmdOutcome {
    CmdOutcome::Ran { ok, exit_code: code, stderr: stderr.to_string(), stdout: String::new() }
}

#[test]
fn first_mount_strategy_wins() {
    let plan = plan_mount(UUID, "~/Public/mount", "~/Public/mount", "/home/u", 17200, true)
        .unwrap();
    let r = decide_mount(&plan, &ran(true, 0, ""), None, None, None);
    match r {
        MountOutcome::Mounted { mount_point, url } => {
            assert_eq!(mount_point, plan.mount_point);
            assert_eq!(url, plan.http_url);
        },
        MountOutcome::Failed { .. } => panic!("expected a mount"),
    }
}

#[test]
fn tls_strategy_is_second() {
    let plan = plan_mount(UUID, "~/Public/mount", "~/Public/mount", "/home/u", 17200, true)
        .unwrap();
    let r = decide_mount(&plan, &ran(false, 64, "no"), Some(&ran(true, 0, "")), None, None);
    match r {
        MountOutcome::Mounted { url, .. } => assert_eq!(url, plan.tls_url),
        MountOutcome::Failed { .. } => panic!("expected a mount"),
    }
}

#[test]
fn all_strategies_failing_quotes_first_exit_code() {
    let plan = plan_mount(UUID, "~/Public/mount", "~/Public/mount", "/home/u", 17200, true)
        .unwrap();
    let r = decide_mount(
        &plan,
        &ran(false, 64, "first error"),
        Some(&ran(false, 65, "second error")),
        Some(&ran(false, 1, " finder said no \n")),
        None,
    );
    match r {
        MountOutcome::Failed { message } => {
            assert_eq!(
                message,
                "マウント失敗 (mount_webdav exit 64, Finder: finder said no)"
            );
        },
        MountOutcome::Mounted { .. } => panic!("expected a failure"),
    }
}

#[test]
fn finder_strategy_uses_discovered_mount_point() {
    let plan = plan_mount(UUID, "~/Public/mount", "~/Public/mount", "/home/u", 17200, true)
        .unwrap();
    let r = decide_mount(
        &plan,
        &ran(false, 64, ""),
        Some(&ran(false, 65, "")),
        Some(&ran(true, 0, "")),
        Some("/Volumes/share".to_string()),
    );
    match r {
        MountOutcome::Mounted { mount_point, url } => {
            assert_eq!(mount_point, "/Volumes/share");
            assert_eq!(url, plan.http_url);
        },
        MountOutcome::Failed { .. } => panic!("expected a mount"),
    }
}

#[test]
fn mkdir_outcomes() {
    assert_eq!(mkdir_outcome_error(&ran(true, 0, "")), None);
    assert_eq!(
        mkdir_outcome_error(&ran(false, 1, "denied")),
        Some("ディレクトリ作成失敗: denied".to_string())
    );
    assert_eq!(
        mkdir_outcome_error(&CmdOutcome::SpawnFailed("no binary".to_string())),
        Some("mkdir実行エラー: no binary".to_string())
    );
}

#[test]
fn unmount_checks() {
    match check_unmount_path("/home/u/other", "~/Public/mount", "/home/u") {
        UnmountDecision::Reject { status, message } => {
            assert_eq!(status, 403);
            assert_eq!(message, "Can only unmount SnowSync mount points (ljc-*)");
        },
        UnmountDecision::Proceed => panic!("expected a rejection"),
    }
    match check_unmount_path("/home/u/Public/mount/ljc-550e8400", "~/Public/mount", "/home/u") {
        UnmountDecision::Proceed => {},
        UnmountDecision::Reject { .. } => panic!("expected to proceed"),
    }
    assert_eq!(unmount_outcome(&ran(true, 0, "")), Ok(()));
    assert_eq!(
        unmount_outcome(&ran(false, 1, "busy")),
        Err("アンマウント失敗: busy".to_string())
    );
}

#[test]
fn mount_error_statuses() {
    assert_eq!(MountError::BadRequest(String::new()).status(), 400);
    assert_eq!(MountError::Forbidden(String::new()).status(), 403);
    assert_eq!(MountError::NotFound(String::new()).status(), 404);
    assert_eq!(MountError::Internal(String::new()).status(), 500);
}

#[test]
fn mount_table_line_parsing() {
    let (url, point) = parse_mount_line(
        "http://127.0.0.1:17200/webdav/x/ on /Users/u/Public/mount/ljc-550e8400 (webdavfs, nodev)",
    );
    assert_eq!(url, "http://127.0.0.1:17200/webdav/x/");
    assert_eq!(point, "/Users/u/Public/mount/ljc-550e8400");
    let (url2, point2) = parse_mount_line("no separators here");
    assert_eq!(url2, "no separators here");
    assert_eq!(point2, "");
}

#[test]
fn mount_table_listing_filters() {
    let out = "devfs on /dev (devfs)\nhttp://127.0.0.1:17200/webdav/a/ on /mnt/a (webdavfs)\nother on /x (x)\n";
    let lines = list_mount_lines(out, 17200);
    assert_eq!(lines.len(), 1);
    assert_eq!(lines[0].mount_point, "/mnt/a");
    assert_eq!(lines[0].url, "http://127.0.0.1:17200/webdav/a/");
}

#[test]
fn finder_mount_discovery() {
    let out = "devfs on /dev (devfs)\nhttp://127.0.0.1:17200/webdav/550e8400-e29b-41d4-a716-446655440000/ on /Volumes/found (webdavfs)\n";
    assert_eq!(find_webdav_mount(out, UUID), Some("/Volumes/found".to_string()));
    assert_eq!(find_webdav_mount("devfs on /dev (devfs)\n", UUID), None);
}

#[test]
fn pem_decoding() {
    let pem = "-----BEGIN CERTIFICATE-----\nAQID\n-----END CERTIFICATE-----\n";
    assert_eq!(pem_to_der(pem), [1u8, 2, 3].to_vec());
}

#[test]
fn certificate_cache_check() {
    assert!(cached_cert_usable(" 192.168.1.7\n", "192.168.1.7", true, true));
    assert!(!cached_cert_usable("192.168.1.7", "10.0.0.1", true, true));
    assert!(!cached_cert_usable("192.168.1.7", "192.168.1.7", false, true));
}

#[test]
fn san_set_has_lan_loopback_and_localhost() {
    let sans = san_entries("192.168.1.7");
    assert_eq!(sans.len(), 3);
    assert!(sans.contains(&"192.168.1.7".to_string()));
    assert!(sans.contains(&"localhost".to_string()));
    assert!(sans.contains(&"127.0.0.1".to_string()));
}
