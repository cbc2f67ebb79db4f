use launcher::launch::{
    client_launch_command, finish_launch_command, hc_launch_command, hc_name, hc_script, hc_script_path,
    headless_client_count, headless_config, init_mission, init_mission_config, is_hc_script_name,
    launch_command, mod_param, parse_config_values, names_temp_config_exec, plan_launch, reads_existing_temp_config, reads_server_config,
    server_config_path, temp_config_param_exec, writes_temp_config,
};

fn s(v: &str) -> Option<String> {
    Some(v.to_string())
}

fn strings(v: &[&str]) -> Vec<String> {
    v.iter().map(|x| x.to_string()).collect()
}

#[test]
fn mod_param_of_no_mods_is_empty() {
    assert_eq!(mod_param("mod", &[]), "");
}

#[test]
fn mod_param_joins_mods_with_semicolons() {
    assert_eq!(mod_param("mod", &strings(&["workshop/1", "mods/@ace"])), " -mod=\"workshop/1;mods/@ace\" ");
    assert_eq!(mod_param("serverMod", &strings(&["a"])), " -serverMod=\"a\" ");
}

#[test]
fn launch_command_with_defaults() {
    let cmd = launch_command("./arma3server_x64", &None, &None, &None, &[], &[]);
    assert_eq!(cmd, "./arma3server_x64 -limitFPS=1000 -world=empty  ");
}

#[test]
fn launch_command_with_mods_and_cdlc() {
    let cmd = launch_command(
        "./arma3server_x64",
        &s("120"),
        &s("Altis"),
        &s("-loadMissionToMemory"),
        &strings(&["workshop/463939057"]),
        &strings(&["gm", "vn"]),
    );
    assert_eq!(
        cmd,
        "./arma3server_x64 -limitFPS=120 -world=Altis -loadMissionToMemory  -mod=\"workshop/463939057\"  -mod=gm -mod=vn"
    );
}

#[test]
fn headless_client_count_parses_like_u32() {
    assert_eq!(headless_client_count(&None), Some(0));
    let samples = [
        "0", "3", "+3", "-3", "", "+", "abc", " 3", "3 ", "4294967295", "4294967296", "007", "99999999999999999999",
        "١",
    ];
    for v in samples {
        assert_eq!(headless_client_count(&s(v)), v.parse::<u32>().ok(), "on {:?}", v);
    }
}

#[test]
fn headless_config_adds_missing_entries() {
    let data = "hostname = \"x\";\n";
    let values = parse_config_values(data);
    assert_eq!(
        headless_config(data, &values),
        "hostname = \"x\";\n\nheadlessclients[] = {\"127.0.0.1\"};\n\nlocalclient[] = {\"127.0.0.1\"};\n"
    );
    let data2 = "HeadlessClients[] = {\"10.0.0.1\"};\nlocalClient[]={\"10.0.0.1\"};\n";
    let values2 = parse_config_values(data2);
    assert_eq!(headless_config(data2, &values2), data2);
}

#[test]
fn client_launch_carries_the_password() {
    let values = parse_config_values("password = \"hunter\";\n");
    let cmd = client_launch_command("srv -config=\"/tmp/arma3.cfg\"", &None, values.get("password"));
    assert_eq!(cmd, "srv -config=\"/tmp/arma3.cfg\" -client -connect=127.0.0.1 -port=2302 -password=\"hunter\"");
    let cmd2 = client_launch_command("srv", &s("2402"), None);
    assert_eq!(cmd2, "srv -client -connect=127.0.0.1 -port=2402");
}

#[test]
fn headless_client_names_substitute_ii_before_i() {
    assert_eq!(hc_name(&None, &None, 0), "main-hc-0");
    assert_eq!(hc_name(&None, &s("ops"), 2), "ops-hc-2");
    assert_eq!(hc_name(&s("$profile-$ii-$i"), &None, 1), "main-2-1");
    assert_eq!(hc_name(&s("hc$ii$ii"), &s("x"), 9), "hc1010");
}

#[test]
fn headless_client_scripts() {
    assert_eq!(hc_script_path(0), "/arma3/server/hc_command_1.sh");
    assert_eq!(hc_script_path(11), "/arma3/server/hc_command_12.sh");
    let line = hc_launch_command("srv -client", "main-hc-0");
    assert_eq!(line, "srv -client -name=\"main-hc-0\"");
    assert_eq!(hc_script(&line), "#!/bin/bash\ncd /arma3/server\nsrv -client -name=\"main-hc-0\"\n");
}

#[test]
fn init_mission_strips_one_pbo_suffix() {
    assert_eq!(init_mission(&s("co10.Altis.pbo")), Some("co10.Altis".to_string()));
    assert_eq!(init_mission(&s("co10.Altis")), Some("co10.Altis".to_string()));
    assert_eq!(init_mission(&s("x.pbo.pbo")), Some("x.pbo".to_string()));
    assert_eq!(init_mission(&s(".pbo")), Some(String::new()));
    assert_eq!(init_mission(&s("")), None);
    assert_eq!(init_mission(&None), None);
}

#[test]
fn init_mission_config_makes_the_server_persistent() {
    let missions = "\nclass Missions {\n  class Mission_1 {\n    template = \"co10.Altis\";\n    difficulty = \"skua_difficulty\";\n  };\n};\n";
    assert_eq!(
        init_mission_config("hostname = \"x\";\n", "co10.Altis"),
        format!("hostname = \"x\";\n\npersistent = 1;\n{missions}")
    );
    assert_eq!(
        init_mission_config("Persistent = 0;\n", "co10.Altis"),
        format!("Persistent = 0;\n{missions}")
    );
}

#[test]
fn final_command_uses_the_written_config_when_there_is_one() {
    assert_eq!(temp_config_param_exec(), " -config=\"/tmp/arma3.cfg\"");
    let with_tmp = format!("srv{}", temp_config_param_exec());
    let cmd = finish_launch_command(&with_tmp, "main.cfg", &None, &None, "basic.cfg", &[]);
    assert_eq!(
        cmd,
        "srv -config=\"/tmp/arma3.cfg\" -port=2302 -name=\"main\" -profiles=\"/arma3/server/configs/profiles\" -cfg=\"/arma3/server/configs/basic.cfg\""
    );
    let cmd2 = finish_launch_command("srv", "main.cfg", &s("2502"), &s("ops"), "basic.cfg", &strings(&["servermods/@x"]));
    assert_eq!(
        cmd2,
        "srv -config=\"/arma3/server/configs/main.cfg\" -port=2502 -name=\"ops\" -profiles=\"/arma3/server/configs/profiles\" -cfg=\"/arma3/server/configs/basic.cfg\" -serverMod=\"servermods/@x\" "
    );
    assert_eq!(cmd.matches("-config=").count(), 1);
    assert_eq!(cmd2.matches("-config=").count(), 1);
    assert_eq!(server_config_path("main.cfg"), "/arma3/server/configs/main.cfg");
}

#[test]
fn a_mission_without_headless_clients_loads_the_written_config() {
    let data = "hostname = \"x\";\n";
    let mission = init_mission(&s("Op.Altis.pbo"));
    assert!(writes_temp_config(0, &mission));
    assert!(reads_server_config("srv", 0, &mission));
    assert!(!reads_existing_temp_config("srv", 0, &mission));
    let plan = plan_launch("srv", data, "", 0, &None, &mission);
    assert_eq!(
        plan.temp_config.as_deref(),
        Some("hostname = \"x\";\n\npersistent = 1;\n\nclass Missions {\n  class Mission_1 {\n    template = \"Op.Altis\";\n    difficulty = \"skua_difficulty\";\n  };\n};\n")
    );
    assert!(plan.client_launch.is_none());
    assert_eq!(plan.launch, "srv -config=\"/tmp/arma3.cfg\" -autoInit");
    let cmd = finish_launch_command(&plan.launch, "main.cfg", &None, &None, "basic.cfg", &[]);
    assert!(cmd.contains("-config=\"/tmp/arma3.cfg\""));
    assert!(cmd.contains(" -autoInit"));
    assert_eq!(cmd.matches("-config=").count(), 1);
}

#[test]
fn headless_clients_and_a_mission_share_the_written_config() {
    let data = "password = \"pw\";\npersistent = 1;\n";
    let mission = init_mission(&s("co10.Stratis"));
    let plan = plan_launch("srv", data, "", 2, &s("2402"), &mission);
    let temp = plan.temp_config.unwrap();
    assert!(temp.starts_with("password = \"pw\";\npersistent = 1;\n\nheadlessclients[] = {\"127.0.0.1\"};\n\nlocalclient[] = {\"127.0.0.1\"};\n"));
    assert!(temp.ends_with("template = \"co10.Stratis\";\n    difficulty = \"skua_difficulty\";\n  };\n};\n"));
    assert!(!temp.contains("persistent = 1;\n\npersistent"));
    assert_eq!(
        plan.client_launch.as_deref(),
        Some("srv -config=\"/tmp/arma3.cfg\" -client -connect=127.0.0.1 -port=2402 -password=\"pw\"")
    );
    assert_eq!(plan.launch, "srv -config=\"/tmp/arma3.cfg\" -autoInit");
}

#[test]
fn without_clients_or_mission_nothing_is_written() {
    assert!(!writes_temp_config(0, &None));
    assert!(!reads_server_config("srv", 0, &None));
    let plan = plan_launch("srv", "", "", 0, &None, &None);
    assert!(plan.temp_config.is_none());
    assert!(plan.client_launch.is_none());
    assert_eq!(plan.launch, "srv");
    let cmd = finish_launch_command(&plan.launch, "main.cfg", &None, &None, "basic.cfg", &[]);
    assert!(cmd.starts_with("srv -config=\"/arma3/server/configs/main.cfg\" -port=2302"));
}

#[test]
fn old_headless_client_scripts_are_recognized() {
    assert!(is_hc_script_name("hc_command_1.sh"));
    assert!(is_hc_script_name("hc_command_12.sh"));
    assert!(!is_hc_script_name("hc_command_1.sh.bak"));
    assert!(!is_hc_script_name("my_hc_command_1.sh"));
    assert!(!is_hc_script_name("hc_command.sh"));
}

#[test]
fn config_values_are_trimmed_and_a_later_key_wins() {
    let values = parse_config_values("Key = one ;\nKEY =  two  \n");
    assert_eq!(values.get("key").map(|v| v.as_str()), Some("two"));
    assert_eq!(values.keys().iter().filter(|k| k.as_str() == "key").count(), 2);
}

#[test]
fn a_trailing_key_without_value_takes_the_added_line() {
    // The loose reading lets the whitespace after `=` run over line ends,
    // so a last `key =` with no value takes the next line as its value.
    let data = "a =\n";
    let values = parse_config_values(data);
    let added = headless_config(data, &values);
    let reread = parse_config_values(&added);
    assert_eq!(reread.get("a").map(|v| v.as_str()), Some("headlessclients[] = {\"127.0.0.1\"}"));
    assert!(!reread.contains_key("headlessclients[]"));
    assert!(reread.contains_key("localclient[]"));
}

#[test]
fn added_lines_are_found_again_in_a_plain_config() {
    let data = "hostname = \"x\";\n";
    let added = headless_config(data, &parse_config_values(data));
    let reread = parse_config_values(&added);
    assert!(reread.contains_key("headlessclients[]"));
    assert!(reread.contains_key("localclient[]"));
}

#[test]
fn extra_parameters_that_name_the_written_config_keep_it() {
    // Where the extra parameters already name the written config, the
    // server's own config is not added, and a mission starts from the
    // config already at that path.
    let base = launch_command("srv", &None, &None, &s("-config=\"/tmp/arma3.cfg\""), &[], &[]);
    assert!(names_temp_config_exec(&base));
    let cmd = finish_launch_command(&base, "main.cfg", &None, &None, "basic.cfg", &[]);
    assert!(!cmd.contains("/arma3/server/configs/main.cfg"));
    let mission = init_mission(&s("m.Altis"));
    assert!(!reads_server_config(&base, 0, &mission));
    assert!(reads_existing_temp_config(&base, 0, &mission));
    let plan = plan_launch(&base, "", "old = 1;\n", 0, &None, &mission);
    assert!(plan.temp_config.unwrap().starts_with("old = 1;\n\npersistent = 1;\n"));
    assert_eq!(plan.launch, format!("{base} -autoInit"));
    assert_eq!(plan.launch.matches("-config=").count(), 1);
}
