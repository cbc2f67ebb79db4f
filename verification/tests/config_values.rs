use std::collections::{HashMap, HashSet};

use launcher::launch::parse_config_values;

fn pattern() -> regex::Regex {
    regex::Regex::new(r"(?m)(.+?)(?:\s+)?=(?:\s+)?(.+?)(?:$|/|;)").unwrap()
}

fn reference_values(re: &regex::Regex, data: &str) -> HashMap<String, String> {
    re.captures_iter(data)
        .map(|c| (c[1].trim().to_lowercase(), c[2].trim().to_string()))
        .collect()
}

fn assert_same(re: &regex::Regex, data: &str) {
    let expected = reference_values(re, data);
    let values = parse_config_values(data);
    let keys: HashSet<String> = values.keys().into_iter().collect();
    let expected_keys: HashSet<String> = expected.keys().cloned().collect();
    assert_eq!(keys, expected_keys, "keys differ on {:?}", data);
    for (k, v) in &expected {
        assert_eq!(values.get(k), Some(v), "value of {:?} differs on {:?}", k, data);
    }
}

#[test]
fn config_values_agree_with_the_pattern_on_generated_text() {
    let alphabet = ['a', 'b', 'K', ' ', '\t', '\n', '=', '/', ';', '\u{a0}', 'x', '\r', '"', 'É'];
    let mut state: u64 = 0x2545_f491_4f6c_dd1d;
    let re = pattern();
    for _ in 0..3000 {
        state = state.wrapping_mul(6364136223846793005).wrapping_add(1442695040888963407);
        let len = (state >> 59) as usize;
        let mut s = String::new();
        for _ in 0..len {
            state = state.wrapping_mul(6364136223846793005).wrapping_add(1442695040888963407);
            s.push(alphabet[((state >> 33) % alphabet.len() as u64) as usize]);
        }
        assert_same(&re, &s);
    }
}

#[test]
fn config_values_of_a_server_config() {
    let data = "hostname = \"My Server\";\npassword = \"secret\"; // join password\nHeadlessClients[] = {\"127.0.0.1\"};\nmaxPlayers=64;\n";
    assert_same(&pattern(), data);
    let values = parse_config_values(data);
    assert!(values.contains_key("headlessclients[]"));
    assert!(!values.contains_key("localclient[]"));
    assert_eq!(values.get("password").map(|s| s.as_str()), Some("\"secret\""));
    assert_eq!(values.get("maxplayers").map(|s| s.as_str()), Some("64"));
    assert_eq!(values.get("hostname").map(|s| s.as_str()), Some("\"My Server\""));
}
