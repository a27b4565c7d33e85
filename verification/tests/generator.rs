use fex_rootfs_gen::escape::systemd_escape_path;
use fex_rootfs_gen::layers::collect_layers;
use fex_rootfs_gen::layers::entry_stem;
use fex_rootfs_gen::layers::layer_from_entry;
use fex_rootfs_gen::layers::DuplicatePolicy;
use fex_rootfs_gen::layers::Layer;
use fex_rootfs_gen::layers::LayerSet;
use fex_rootfs_gen::order::sort_name_strings;
use fex_rootfs_gen::order::str_eq;
use fex_rootfs_gen::order::str_lex_le;
use fex_rootfs_gen::units::generate_units;
use fex_rootfs_gen::units::join_strings;
use fex_rootfs_gen::units::overlay_lower_dirs;
use fex_rootfs_gen::units::render_layer_unit;
use fex_rootfs_gen::units::unit_dependencies;
use fex_rootfs_gen::units::Config;

fn test_config() -> Config {
    Config {
        layers_dir: String::from("/L"),
        mounts_dir: String::from("/M"),
        rootfs_dir: String::from("/R/rootfs"),
        writable_dir: String::from("/W"),
        work_dir: String::from("/K"),
    }
}

fn set_of(layers: &[(&str, &str)]) -> LayerSet {
    let mut set = LayerSet::new();
    for (name, source) in layers {
        let r = set.insert(
            Layer { name: String::from(*name), source_path: String::from(*source) },
            DuplicatePolicy::KeepLast,
        );
        assert!(r.is_ok());
    }
    set
}

#[test]
fn stem_strips_one_extension() {
    assert_eq!(entry_stem("a.squashfs"), "a");
    assert_eq!(entry_stem("a.tar.gz"), "a.tar");
    assert_eq!(entry_stem("noext"), "noext");
    assert_eq!(entry_stem(".hidden"), ".hidden");
    assert_eq!(entry_stem("a."), "a");
}

#[test]
fn layer_from_entry_builds_name_and_path() {
    let l = layer_from_entry("/usr/share/fex-emu/layers", "a.squashfs");
    assert_eq!(l.name, "a");
    assert_eq!(l.source_path, "/usr/share/fex-emu/layers/a.squashfs");
}

#[test]
fn string_order_helpers() {
    assert!(str_lex_le("a", "ab"));
    assert!(str_lex_le("ab", "b"));
    assert!(str_lex_le("a", "a"));
    assert!(!str_lex_le("b", "ab"));
    assert!(str_eq("abc", "abc"));
    assert!(!str_eq("abc", "abd"));
    assert!(!str_eq("abc", "ab"));
}

#[test]
fn sorting_is_ascending_lexicographic() {
    let v = vec![
        String::from("beta"),
        String::from("alpha"),
        String::from("alpha2"),
        String::from("Zeta"),
    ];
    let s = sort_name_strings(&v);
    assert_eq!(s, vec!["Zeta", "alpha", "alpha2", "beta"]);
}

#[test]
fn join_strings_formats() {
    assert_eq!(join_strings(&vec![], ":"), "");
    assert_eq!(join_strings(&vec![String::from("a")], ":"), "a");
    assert_eq!(
        join_strings(&vec![String::from("a"), String::from("b"), String::from("c")], ":"),
        "a:b:c"
    );
}

#[test]
fn deps_and_stack_are_two_views_of_one_order() {
    let sorted = vec![String::from("a"), String::from("b"), String::from("c")];
    let deps = unit_dependencies("/M", &sorted);
    let stack = overlay_lower_dirs("/M", &sorted);
    assert_eq!(deps.len(), sorted.len());
    assert_eq!(stack.len(), sorted.len());
    assert_eq!(deps, vec!["M-a.mount", "M-b.mount", "M-c.mount"]);
    assert_eq!(stack, vec!["/M/c", "/M/b", "/M/a"]);
}

#[test]
fn layer_unit_exact_text() {
    let unit = render_layer_unit("/M", "a", "/L/a");
    assert_eq!(unit.name, "M-a.mount");
    assert_eq!(
        unit.contents,
        "[Unit]\nDescription=FEX RootFS layer for a\n\n[Mount]\nWhat=/L/a\nWhere=/M/a\n"
    );
}

#[test]
fn two_layers_scenario() {
    let config = test_config();
    let set = set_of(&[("a", "/L/a"), ("b", "/L/b")]);
    let out = generate_units(&config, &set);

    assert_eq!(out.layer_units.len(), 2);
    assert_eq!(out.layer_units[0].name, "M-a.mount");
    assert_eq!(
        out.layer_units[0].contents,
        "[Unit]\nDescription=FEX RootFS layer for a\n\n[Mount]\nWhat=/L/a\nWhere=/M/a\n"
    );
    assert_eq!(out.layer_units[1].name, "M-b.mount");
    assert_eq!(
        out.layer_units[1].contents,
        "[Unit]\nDescription=FEX RootFS layer for b\n\n[Mount]\nWhat=/L/b\nWhere=/M/b\n"
    );

    assert_eq!(out.rootfs_unit.name, "R-rootfs.mount");
    assert_eq!(
        out.rootfs_unit.contents,
        "[Unit]\nDescription=FEX RootFS\nBindsTo=M-a.mount M-b.mount\nAfter=M-a.mount M-b.mount\n\n[Mount]\nWhat=overlay\nWhere=/R/rootfs\nType=overlay\nOptions=lowerdir=/M/b:/M/a,upperdir=/W,workdir=/K\n\n[Install]\nWantedBy=multi-user.target\n"
    );

    assert_eq!(out.wants_dir, "multi-user.target.wants");
    assert_eq!(out.wants_link_name, "R-rootfs.mount");
    assert_eq!(out.wants_link_target, "../R-rootfs.mount");
}

#[test]
fn generation_is_deterministic() {
    let config = test_config();
    let set = set_of(&[("b", "/L/b"), ("a", "/L/a"), ("c", "/L/c")]);
    let first = generate_units(&config, &set);
    let second = generate_units(&config, &set);
    assert_eq!(first.layer_units.len(), second.layer_units.len());
    for (u1, u2) in first.layer_units.iter().zip(second.layer_units.iter()) {
        assert_eq!(u1.name, u2.name);
        assert_eq!(u1.contents, u2.contents);
    }
    assert_eq!(first.rootfs_unit.name, second.rootfs_unit.name);
    assert_eq!(first.rootfs_unit.contents, second.rootfs_unit.contents);
    assert_eq!(first.wants_link_target, second.wants_link_target);
}

#[test]
fn zero_layers_still_emits_aggregate() {
    let config = test_config();
    let set = LayerSet::new();
    let out = generate_units(&config, &set);
    assert_eq!(out.layer_units.len(), 0);
    assert_eq!(out.rootfs_unit.name, "R-rootfs.mount");
    assert_eq!(
        out.rootfs_unit.contents,
        "[Unit]\nDescription=FEX RootFS\nBindsTo=\nAfter=\n\n[Mount]\nWhat=overlay\nWhere=/R/rootfs\nType=overlay\nOptions=lowerdir=,upperdir=/W,workdir=/K\n\n[Install]\nWantedBy=multi-user.target\n"
    );
}

#[test]
fn duplicate_stems_collapse_to_one_layer() {
    // Two entries whose base names coincide end up as one layer; the policy
    // decides which source wins. This records the behaviour as it is.
    let entries = vec![String::from("a.squashfs"), String::from("a.img")];
    let set = collect_layers("/L", &entries, DuplicatePolicy::KeepLast).ok().unwrap();
    assert_eq!(set.len(), 1);
    assert_eq!(set.source_of("a").unwrap(), "/L/a.img");

    let kept_first = collect_layers("/L", &entries, DuplicatePolicy::KeepFirst).ok().unwrap();
    assert_eq!(kept_first.len(), 1);
    assert_eq!(kept_first.source_of("a").unwrap(), "/L/a.squashfs");
}

#[test]
fn duplicate_stems_rejected_on_request() {
    let entries = vec![String::from("a.squashfs"), String::from("a.img")];
    let r = collect_layers("/L", &entries, DuplicatePolicy::Reject);
    match r {
        Ok(_) => panic!("collision was not reported"),
        Err(e) => assert_eq!(e.name, "a"),
    }
}

#[test]
fn insert_reports_only_rejected_collisions() {
    let mut set = set_of(&[("a", "/L/a")]);
    let dup = Layer { name: String::from("a"), source_path: String::from("/L/other") };
    let r = set.insert(dup, DuplicatePolicy::Reject);
    match r {
        Ok(_) => panic!("collision was not reported"),
        Err(e) => assert_eq!(e.name, "a"),
    }
    assert_eq!(set.len(), 1);
    assert_eq!(set.source_of("a").unwrap(), "/L/a");
}

#[test]
fn rootfs_unit_name_matches_escape() {
    let config = test_config();
    let set = LayerSet::new();
    let out = generate_units(&config, &set);
    assert_eq!(out.rootfs_unit.name, systemd_escape_path("/R/rootfs"));
}
