use launcher::local_mods::mod_dir_param;

#[test]
fn local_mod_paths_under_the_server_are_relative() {
    assert_eq!(mod_dir_param("/arma3/server/mods/@ace"), "mods/@ace");
    assert_eq!(mod_dir_param("/arma3/server/servermods/@x"), "servermods/@x");
    assert_eq!(mod_dir_param("/srv/mods/@cba"), "/srv/mods/@cba");
    assert_eq!(mod_dir_param("/arma3/server"), "/arma3/server");
    assert_eq!(mod_dir_param("/arma3/server/"), "");
}
