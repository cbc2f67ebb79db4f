use std::cell::RefCell;

use launcher::text::is_decimal_digit;
use launcher::workshop::{
    copy_keys, is_preset_url, mods_to_check, patch_meta_cpp, patch_mod_cpp, preset_mod_ids, preset_result,
    workshop_dir, workshop_mod,
};

fn next(state: &mut u64) -> u64 {
    *state = state.wrapping_mul(6364136223846793005).wrapping_add(1442695040888963407);
    *state >> 33
}

fn random_text(state: &mut u64, pieces: &[&str], max_pieces: u64) -> String {
    let n = next(state) % (max_pieces + 1);
    let mut s = String::new();
    for _ in 0..n {
        s.push_str(pieces[(next(state) % pieces.len() as u64) as usize]);
    }
    s
}

#[test]
fn decimal_digits_are_those_of_the_pattern() {
    let re = regex::Regex::new(r"^\d$").unwrap();
    let mut buf = [0u8; 4];
    for code in 0..=0x10ffffu32 {
        if let Some(c) = char::from_u32(code) {
            assert_eq!(is_decimal_digit(c), re.is_match(c.encode_utf8(&mut buf)), "on U+{:04X}", code);
        }
    }
}

#[test]
fn preset_ids_of_a_collection_export() {
    let html = r#"<a href="https://steamcommunity.com/sharedfiles/filedetails/?id=463939057" data-type="Link">ace</a>
<a href="https://steamcommunity.com/sharedfiles/filedetails/?id=450814997" data-type="Link">cba</a>
<a href="https://steamcommunity.com/sharedfiles/filedetails/?id=99999999999999999999999">too big</a>
<a href="https://steamcommunity.com/sharedfiles/filedetails/?id=">none</a>"#;
    assert_eq!(preset_mod_ids(html), vec![463939057, 450814997]);
}

#[test]
fn preset_ids_agree_with_the_pattern() {
    let re = regex::Regex::new(r#"filedetails/\?id=(\d+)""#).unwrap();
    let pieces = ["filedetails/?id=", "1", "23", "\"", "x", "٣", "filedetails/?id=1\"", "?", "18446744073709551616"];
    let mut state = 7u64;
    for _ in 0..3000 {
        let t = random_text(&mut state, &pieces, 8);
        let expected: Vec<u64> = re.captures_iter(&t).filter_map(|c| c[1].parse().ok()).collect();
        assert_eq!(preset_mod_ids(&t), expected, "on {:?}", t);
    }
}

#[test]
fn only_missing_mods_are_checked_unless_verifying() {
    let ids = [1u64, 2, 3];
    let exists = [true, false, true];
    assert_eq!(mods_to_check(&ids, &exists, false), vec![2]);
    assert_eq!(mods_to_check(&ids, &exists, true), vec![1, 2, 3]);
    assert_eq!(mods_to_check(&[], &[], false), Vec::<u64>::new());
}

#[test]
fn workshop_paths() {
    assert_eq!(workshop_dir("/arma3/server", 463939057), "/arma3/server/workshop/463939057");
    assert_eq!(workshop_dir("/arma3/server/", 1), "/arma3/server/workshop/1");
    assert_eq!(workshop_dir("", 1), "workshop/1");
    assert_eq!(workshop_mod(450814997), "workshop/450814997");
    for root in ["/arma3/server", "/srv/", "", "rel"] {
        let expected = std::path::Path::new(root).join("workshop").join("42");
        assert_eq!(workshop_dir(root, 42), expected.to_string_lossy());
    }
}

#[test]
fn every_preset_mod_gets_a_parameter_and_a_key_dir() {
    let r = preset_result("/arma3/server", &[5, 7]);
    assert_eq!(r.mods, vec!["workshop/5".to_string(), "workshop/7".to_string()]);
    assert_eq!(
        r.key_dirs,
        vec!["/arma3/server/workshop/5".to_string(), "/arma3/server/workshop/7".to_string()]
    );
}

#[test]
fn preset_urls_are_fetched() {
    assert!(is_preset_url("https://example.org/preset.html"));
    assert!(is_preset_url("http://example.org/preset.html"));
    assert!(!is_preset_url("/arma3/presets/ops.html"));
}

#[test]
fn meta_cpp_gets_its_published_id() {
    let data = "protocol = 1;\npublishedid = 0;\nname = \"x\";\n";
    assert_eq!(patch_meta_cpp(data, 463939057), "protocol = 1;\npublishedid = 463939057;\nname = \"x\";\n");
    let data2 = "protocole = 1;\npublishedid=  0 ;\n";
    assert_eq!(patch_meta_cpp(data2, 7), "protocol = 1;\npublishedid = 7;\n");
    let data3 = "name = \"x\";\n";
    assert_eq!(patch_meta_cpp(data3, 7), data3);
}

#[test]
fn meta_cpp_patches_agree_with_the_patterns() {
    let re_published = regex::Regex::new(r"publishedid\s*=\s*0\s*;").unwrap();
    let re_protocole = regex::Regex::new(r"protocole").unwrap();
    let pieces = ["publishedid", " ", "=", "0", ";", "\n", "\u{a0}", "protocole", "e", "1", "x"];
    let mut state = 11u64;
    for _ in 0..3000 {
        let t = random_text(&mut state, &pieces, 10);
        let id = next(&mut state) % 1000;
        let first = re_published.replace(&t, format!("publishedid = {id};").as_str()).into_owned();
        let expected = re_protocole.replace_all(&first, "protocol").into_owned();
        assert_eq!(patch_meta_cpp(&t, id), expected, "on {:?}", t);
    }
}

#[test]
fn mod_cpp_loses_its_app_id() {
    assert_eq!(patch_mod_cpp("name = \"x\";\nappId = 107410;\n"), "name = \"x\";\nappId = 0;\n");
    assert_eq!(patch_mod_cpp("appId = ;"), "appId = ;");
    assert_eq!(patch_mod_cpp("appid = 5;"), "appid = 5;");
}

#[test]
fn mod_cpp_patches_agree_with_the_pattern() {
    let re = regex::Regex::new(r"appId\s*=\s*\d+\s*;").unwrap();
    let pieces = ["appId", " ", "=", "0", "107410", ";", "\n", "٣", "x", "\t"];
    let mut state = 13u64;
    for _ in 0..3000 {
        let t = random_text(&mut state, &pieces, 10);
        let expected = re.replace(&t, "appId = 0;").into_owned();
        assert_eq!(patch_mod_cpp(&t), expected, "on {:?}", t);
    }
}

#[test]
fn keys_are_copied_in_order_until_a_failure() {
    let dirs = vec!["a".to_string(), "b".to_string(), "c".to_string()];
    let seen = RefCell::new(Vec::new());
    let all: Result<(), String> = copy_keys(&dirs, |d: &String| {
        seen.borrow_mut().push(d.clone());
        Ok(())
    });
    assert!(all.is_ok());
    assert_eq!(*seen.borrow(), dirs);

    let seen2 = RefCell::new(Vec::new());
    let failed: Result<(), String> = copy_keys(&dirs, |d: &String| {
        seen2.borrow_mut().push(d.clone());
        if d == "b" { Err(format!("cannot copy {d}")) } else { Ok(()) }
    });
    assert_eq!(failed, Err("cannot copy b".to_string()));
    assert_eq!(*seen2.borrow(), vec!["a".to_string(), "b".to_string()]);
}

#[test]
fn unchanged_files_are_not_rewritten() {
    let meta = "name = \"x\";\nprotocol = 1;\n";
    assert_eq!(patch_meta_cpp(meta, 5), meta);
    let m = "name = \"x\";\n";
    assert_eq!(patch_mod_cpp(m), m);
}

#[test]
fn patching_twice_can_change_more() {
    // Replacing `protocole` can form a new `protocole`.
    let once = patch_meta_cpp("protocolee", 1);
    assert_eq!(once, "protocole");
    assert_eq!(patch_meta_cpp(&once, 1), "protocol");
}
