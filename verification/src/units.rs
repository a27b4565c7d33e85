//! Rendering of the unit files: one mount unit per layer, and the aggregate
//! overlay unit whose dependency list and lower-directory stack both come
//! from the single sorted order over the layer names.

use vstd::prelude::*;

verus! {

use vstd::string::StringExecFns;
use crate::escape::unit_name_spec;
use crate::escape::systemd_escape_path;
use crate::layers::LayerSet;
use crate::layers::path_join_spec;
use crate::layers::path_join;
use crate::order::lex_leq_fn;
use crate::order::lemma_lex_le_total_ordering;
use crate::order::sort_views;
use crate::order::sort_name_strings;
use crate::order::views_of;

/// The fixed filesystem roots of one generator run.
pub struct Config {
    /// Where the layer directories are discovered.
    pub layers_dir: String,
    /// Where each layer gets mounted.
    pub mounts_dir: String,
    /// Where the merged overlay gets mounted.
    pub rootfs_dir: String,
    /// The overlay's writable upper directory.
    pub writable_dir: String,
    /// The overlay's scratch work directory.
    pub work_dir: String,
}

/// One unit file to be written: its file name and its full contents.
pub struct UnitFile {
    pub name: String,
    pub contents: String,
}

/// Everything one run emits: the per-layer units, the aggregate unit, and
/// the registration link that activates the aggregate at startup.
pub struct GeneratedUnits {
    /// One mount unit per layer, in ascending name order.
    pub layer_units: Vec<UnitFile>,
    /// The aggregate overlay unit.
    pub rootfs_unit: UnitFile,
    /// The `wants`-style directory to create under the output directory.
    pub wants_dir: String,
    /// The name of the link to place in that directory.
    pub wants_link_name: String,
    /// The relative target the link points at.
    pub wants_link_target: String,
}

/// Where the layer named `name` gets mounted.
pub open spec fn mount_path_spec(mounts_dir: Seq<char>, name: Seq<char>) -> Seq<char> {
    path_join_spec(mounts_dir, name)
}

/// The full text of one per-layer mount unit.
pub open spec fn layer_unit_text_spec(
    name: Seq<char>,
    source: Seq<char>,
    mounts_dir: Seq<char>,
) -> Seq<char> {
    "[Unit]\nDescription=FEX RootFS layer for "@ + name + "\n\n[Mount]\nWhat="@ + source
        + "\nWhere="@ + mount_path_spec(mounts_dir, name) + "\n"@
}

/// The unit names the aggregate depends on, one per name, in the order
/// given.
pub open spec fn dep_names_spec(mounts_dir: Seq<char>, names: Seq<Seq<char>>) -> Seq<Seq<char>> {
    names.map_values(|n: Seq<char>| unit_name_spec(mount_path_spec(mounts_dir, n)))
}

/// The overlay's lower directories: the mount paths of the names in the
/// order opposite to the one given.
pub open spec fn overlay_stack_spec(mounts_dir: Seq<char>, names: Seq<Seq<char>>) -> Seq<
    Seq<char>,
> {
    names.reverse().map_values(|n: Seq<char>| mount_path_spec(mounts_dir, n))
}

/// The parts joined with the separator between each two.
pub open spec fn join_with(parts: Seq<Seq<char>>, sep: Seq<char>) -> Seq<char>
    decreases parts.len(),
{
    if parts.len() == 0 {
        Seq::empty()
    } else if parts.len() == 1 {
        parts[0]
    } else {
        parts[0] + sep + join_with(parts.drop_first(), sep)
    }
}

/// The full text of the aggregate overlay unit over the given ascending
/// name order: it binds to and orders after every per-layer unit, mounts an
/// overlay on the root mount path with the reversed mount paths as lower
/// directories, and asks to be wanted by the default startup target.
pub open spec fn rootfs_unit_text_spec(c: Config, names: Seq<Seq<char>>) -> Seq<char> {
    let deps = join_with(dep_names_spec(c.mounts_dir@, names), " "@);
    let lower = join_with(overlay_stack_spec(c.mounts_dir@, names), ":"@);
    "[Unit]\nDescription=FEX RootFS\nBindsTo="@ + deps + "\nAfter="@ + deps
        + "\n\n[Mount]\nWhat=overlay\nWhere="@ + c.rootfs_dir@
        + "\nType=overlay\nOptions=lowerdir="@ + lower + ",upperdir="@ + c.writable_dir@
        + ",workdir="@ + c.work_dir@ + "\n\n[Install]\nWantedBy=multi-user.target\n"@
}

/// Peeling one part off the end of a join: joining one more part appends
/// the separator and that part.
proof fn lemma_join_step(s: Seq<Seq<char>>, sep: Seq<char>, i: int)
    requires
        0 <= i < s.len(),
    ensures
        join_with(s.take(i + 1), sep) == if i == 0 {
            s[0]
        } else {
            (join_with(s.take(i), sep) + sep + s[i])
        },
    decreases i,
{
    if i == 0 {
        assert(s.take(1).len() == 1);
        assert(s.take(1)[0] == s[0]);
        assert(join_with(s.take(1), sep) == s[0]);
    } else if i == 1 {
        assert(s.take(2).len() == 2);
        assert(s.take(1).len() == 1);
        assert(s.take(1)[0] == s[0]);
        assert(s.take(2).drop_first() =~= seq![s[1]]);
        assert(s.take(2)[0] == s[0]);
        assert(join_with(s.take(2).drop_first(), sep) == s[1]);
        assert(join_with(s.take(2), sep) == s[0] + sep + s[1]);
        assert(join_with(s.take(1), sep) == s[0]);
    } else {
        lemma_join_step(s.drop_first(), sep, i - 1);
        assert(s.take(i + 1).len() == i + 1);
        assert(s.take(i).len() == i);
        assert(s.take(i + 1).drop_first() =~= s.drop_first().take(i));
        assert(s.take(i).drop_first() =~= s.drop_first().take(i - 1));
        assert(s.take(i + 1)[0] == s[0]);
        assert(s.take(i)[0] == s[0]);
        let a = s[0];
        let prev = join_with(s.drop_first().take(i - 1), sep);
        let x = s.drop_first()[i - 1];
        assert(x == s[i]);
        assert(join_with(s.drop_first().take(i), sep) == prev + sep + x);
        assert(join_with(s.take(i + 1), sep) == a + sep + (prev + sep + x));
        assert(join_with(s.take(i), sep) == a + sep + prev);
        assert(a + sep + (prev + sep + x) =~= (a + sep + prev) + sep + x);
    }
}

/// Joins the parts with the separator between each two.
pub fn join_strings(parts: &Vec<String>, sep: &str) -> (r: String)
    ensures
        r@ == join_with(views_of(parts@), sep@),
{
    let mut r = String::new();
    let n = parts.len();
    let mut i: usize = 0;
    while i < n
        invariant
            i <= n,
            n == parts.len(),
            r@ == join_with(views_of(parts@).take(i as int), sep@),
        decreases n - i,
    {
        let ghost prev = r@;
        if i > 0 {
            r.append(sep);
        }
        r.append(parts[i].as_str());
        proof {
            let s = views_of(parts@);
            lemma_join_step(s, sep@, i as int);
            if i == 0 {
                assert(prev =~= Seq::<char>::empty());
                assert(prev + s[0] =~= s[0]);
            }
        }
        i = i + 1;
    }
    proof {
        assert(views_of(parts@).take(n as int) =~= views_of(parts@));
    }
    r
}

/// Renders the mount unit of one layer: named after its mount path, it
/// mounts the layer's source onto that path.
pub fn render_layer_unit(mounts_dir: &str, layer_name: &str, source_path: &str) -> (r: UnitFile)
    ensures
        r.name@ == unit_name_spec(mount_path_spec(mounts_dir@, layer_name@)),
        r.contents@ == layer_unit_text_spec(layer_name@, source_path@, mounts_dir@),
{
    let mount_path = path_join(mounts_dir, layer_name);
    let name = systemd_escape_path(mount_path.as_str());
    let mut c = String::new();
    c.append("[Unit]\nDescription=FEX RootFS layer for ");
    c.append(layer_name);
    c.append("\n\n[Mount]\nWhat=");
    c.append(source_path);
    c.append("\nWhere=");
    c.append(mount_path.as_str());
    c.append("\n");
    proof {
        assert(c@ =~= layer_unit_text_spec(layer_name@, source_path@, mounts_dir@));
    }
    UnitFile { name, contents: c }
}

/// The unit names the aggregate depends on, for the given name order.
pub fn unit_dependencies(mounts_dir: &str, names: &Vec<String>) -> (r: Vec<String>)
    ensures
        views_of(r@) == dep_names_spec(mounts_dir@, views_of(names@)),
{
    let mut r: Vec<String> = Vec::new();
    let n = names.len();
    let mut i: usize = 0;
    while i < n
        invariant
            i <= n,
            n == names.len(),
            views_of(r@) == dep_names_spec(mounts_dir@, views_of(names@)).take(i as int),
        decreases n - i,
    {
        let ghost old_r = r@;
        let mount_path = path_join(mounts_dir, names[i].as_str());
        let unit = systemd_escape_path(mount_path.as_str());
        r.push(unit);
        proof {
            let dspec = dep_names_spec(mounts_dir@, views_of(names@));
            assert(views_of(old_r) == dspec.take(i as int));
            assert(views_of(old_r).len() == old_r.len());
            assert(dspec.take(i as int).len() == i);
            assert(old_r.len() == i);
            assert(views_of(r@) =~= dspec.take(i as int + 1));
        }
        i = i + 1;
    }
    proof {
        assert(dep_names_spec(mounts_dir@, views_of(names@)).take(n as int) =~= dep_names_spec(
            mounts_dir@,
            views_of(names@),
        ));
    }
    r
}

/// The overlay's lower directories, for the given name order: its mount
/// paths, last name first.
pub fn overlay_lower_dirs(mounts_dir: &str, names: &Vec<String>) -> (r: Vec<String>)
    ensures
        views_of(r@) == overlay_stack_spec(mounts_dir@, views_of(names@)),
{
    let mut r: Vec<String> = Vec::new();
    let n = names.len();
    let mut i: usize = 0;
    while i < n
        invariant
            i <= n,
            n == names.len(),
            views_of(r@) == overlay_stack_spec(mounts_dir@, views_of(names@)).take(i as int),
        decreases n - i,
    {
        let ghost old_r = r@;
        let mount_path = path_join(mounts_dir, names[n - 1 - i].as_str());
        r.push(mount_path);
        proof {
            let ospec = overlay_stack_spec(mounts_dir@, views_of(names@));
            assert(views_of(names@).reverse()[i as int] == views_of(names@)[n - 1 - i]);
            assert(views_of(old_r) == ospec.take(i as int));
            assert(views_of(old_r).len() == old_r.len());
            assert(ospec.take(i as int).len() == i);
            assert(old_r.len() == i);
            assert(views_of(r@) =~= ospec.take(i as int + 1));
        }
        i = i + 1;
    }
    proof {
        assert(overlay_stack_spec(mounts_dir@, views_of(names@)).take(n as int)
            =~= overlay_stack_spec(mounts_dir@, views_of(names@)));
    }
    r
}

/// Renders the aggregate overlay unit for the given ascending name order.
pub fn render_rootfs_unit(config: &Config, sorted_names: &Vec<String>) -> (r: UnitFile)
    ensures
        r.name@ == unit_name_spec(config.rootfs_dir@),
        r.contents@ == rootfs_unit_text_spec(*config, views_of(sorted_names@)),
{
    let deps = unit_dependencies(config.mounts_dir.as_str(), sorted_names);
    let dep_list = join_strings(&deps, " ");
    let lowers = overlay_lower_dirs(config.mounts_dir.as_str(), sorted_names);
    let lower_list = join_strings(&lowers, ":");
    let name = systemd_escape_path(config.rootfs_dir.as_str());
    let mut c = String::new();
    c.append("[Unit]\nDescription=FEX RootFS\nBindsTo=");
    c.append(dep_list.as_str());
    c.append("\nAfter=");
    c.append(dep_list.as_str());
    c.append("\n\n[Mount]\nWhat=overlay\nWhere=");
    c.append(config.rootfs_dir.as_str());
    c.append("\nType=overlay\nOptions=lowerdir=");
    c.append(lower_list.as_str());
    c.append(",upperdir=");
    c.append(config.writable_dir.as_str());
    c.append(",workdir=");
    c.append(config.work_dir.as_str());
    c.append("\n\n[Install]\nWantedBy=multi-user.target\n");
    proof {
        assert(c@ =~= rootfs_unit_text_spec(*config, views_of(sorted_names@)));
    }
    UnitFile { name, contents: c }
}

/// The canonical ascending order over a layer set's names.
pub open spec fn sorted_layer_names(l: LayerSet) -> Seq<Seq<char>> {
    sort_views(l.names())
}

/// What one generator run emits, given its configuration and layers: a
/// mount unit per layer in ascending name order, the aggregate overlay
/// unit over that same order, and the registration link for the default
/// startup target.
pub open spec fn generated_correctly(c: Config, l: LayerSet, r: GeneratedUnits) -> bool {
    let names = sorted_layer_names(l);
    &&& r.layer_units@.len() == names.len()
    &&& (forall|i: int|
        0 <= i < names.len() ==> (#[trigger] r.layer_units@[i]).name@ == unit_name_spec(
            mount_path_spec(c.mounts_dir@, names[i]),
        ))
    &&& (forall|i: int|
        0 <= i < names.len() ==> (#[trigger] r.layer_units@[i]).contents@ == layer_unit_text_spec(
            names[i],
            l.pairs()[l.name_index(names[i])].1,
            c.mounts_dir@,
        ))
    &&& r.rootfs_unit.name@ == unit_name_spec(c.rootfs_dir@)
    &&& r.rootfs_unit.contents@ == rootfs_unit_text_spec(c, names)
    &&& r.wants_dir@ == "multi-user.target.wants"@
    &&& r.wants_link_name@ == unit_name_spec(c.rootfs_dir@)
    &&& r.wants_link_target@ == "../"@ + unit_name_spec(c.rootfs_dir@)
}

/// Runs the whole pipeline on an already discovered layer set: sorts the
/// names once, renders one mount unit per layer over the forward order,
/// renders the aggregate unit over the same order, and names the
/// registration link after the aggregate unit.
pub fn generate_units(config: &Config, layers: &LayerSet) -> (r: GeneratedUnits)
    requires
        layers.wf(),
    ensures
        generated_correctly(*config, *layers, r),
{
    let name_vec = layers.name_strings();
    let sorted = sort_name_strings(&name_vec);
    proof {
        lemma_lex_le_total_ordering();
        layers.names().lemma_sort_by_ensures(lex_leq_fn());
    }
    let ghost names = sorted_layer_names(*layers);
    let n = sorted.len();
    let mut layer_units: Vec<UnitFile> = Vec::new();
    let mut i: usize = 0;
    while i < n
        invariant
            i <= n,
            n == sorted.len(),
            layers.wf(),
            views_of(sorted@) == names,
            names == sorted_layer_names(*layers),
            forall|x: Seq<char>| names.contains(x) ==> layers.names().contains(x),
            layer_units@.len() == i,
            forall|k: int|
                0 <= k < i ==> (#[trigger] layer_units@[k]).name@ == unit_name_spec(
                    mount_path_spec(config.mounts_dir@, names[k]),
                ),
            forall|k: int|
                0 <= k < i ==> (#[trigger] layer_units@[k]).contents@ == layer_unit_text_spec(
                    names[k],
                    layers.pairs()[layers.name_index(names[k])].1,
                    config.mounts_dir@,
                ),
        decreases n - i,
    {
        proof {
            assert(names[i as int] == sorted@[i as int]@);
            assert(names.contains(names[i as int]));
        }
        let source = match layers.source_of(sorted[i].as_str()) {
            Some(s) => s,
            None => {
                proof {
                    assert(layers.names().contains(sorted@[i as int]@));
                    assert(false);
                }
                String::new()
            },
        };
        let unit = render_layer_unit(
            config.mounts_dir.as_str(),
            sorted[i].as_str(),
            source.as_str(),
        );
        layer_units.push(unit);
        i = i + 1;
    }
    let rootfs_unit = render_rootfs_unit(config, &sorted);
    let wants_link_name = systemd_escape_path(config.rootfs_dir.as_str());
    let mut wants_link_target = String::new();
    wants_link_target.append("../");
    wants_link_target.append(wants_link_name.as_str());
    let mut wants_dir = String::new();
    wants_dir.append("multi-user.target.wants");
    proof {
        assert(wants_dir@ =~= "multi-user.target.wants"@);
        assert(wants_link_target@ =~= "../"@ + unit_name_spec(config.rootfs_dir@));
    }
    GeneratedUnits { layer_units, rootfs_unit, wants_dir, wants_link_name, wants_link_target }
}

/// The dependency list and the overlay stack are complementary views of
/// one name order: they have the name count's length, the dependency at a
/// position is the unit name of that position's mount path, and the lower
/// directory at a position is the mount path of the name at the mirrored
/// position.
pub proof fn lemma_orders_agree(mounts_dir: Seq<char>, names: Seq<Seq<char>>)
    ensures
        dep_names_spec(mounts_dir, names).len() == names.len(),
        overlay_stack_spec(mounts_dir, names).len() == names.len(),
        forall|i: int|
            0 <= i < names.len() ==> #[trigger] dep_names_spec(mounts_dir, names)[i]
                == unit_name_spec(mount_path_spec(mounts_dir, names[i])),
        forall|i: int|
            0 <= i < names.len() ==> #[trigger] overlay_stack_spec(mounts_dir, names)[i]
                == mount_path_spec(mounts_dir, names[names.len() - 1 - i]),
{
}

/// Two runs over the same configuration and the same layers emit the same
/// unit files, byte for byte, and the same registration link.
pub proof fn lemma_generation_deterministic(
    c: Config,
    l: LayerSet,
    r1: GeneratedUnits,
    r2: GeneratedUnits,
)
    requires
        generated_correctly(c, l, r1),
        generated_correctly(c, l, r2),
    ensures
        r1.layer_units@.len() == r2.layer_units@.len(),
        forall|i: int|
            0 <= i < r1.layer_units@.len() ==> (#[trigger] r1.layer_units@[i]).name@
                == r2.layer_units@[i].name@ && r1.layer_units@[i].contents@
                == r2.layer_units@[i].contents@,
        r1.rootfs_unit.name@ == r2.rootfs_unit.name@,
        r1.rootfs_unit.contents@ == r2.rootfs_unit.contents@,
        r1.wants_dir@ == r2.wants_dir@,
        r1.wants_link_name@ == r2.wants_link_name@,
        r1.wants_link_target@ == r2.wants_link_target@,
{
}

/// A run over no layers still emits the aggregate unit, over the empty
/// name order: no per-layer units, and empty dependency and lower lists in
/// its text.
pub proof fn lemma_empty_run_still_aggregates(c: Config, l: LayerSet, r: GeneratedUnits)
    requires
        generated_correctly(c, l, r),
        l.pairs().len() == 0,
    ensures
        r.layer_units@.len() == 0,
        r.rootfs_unit.contents@ == rootfs_unit_text_spec(c, Seq::empty()),
        join_with(dep_names_spec(c.mounts_dir@, sorted_layer_names(l)), " "@) == Seq::<
            char,
        >::empty(),
        join_with(overlay_stack_spec(c.mounts_dir@, sorted_layer_names(l)), ":"@) == Seq::<
            char,
        >::empty(),
{
    lemma_lex_le_total_ordering();
    l.names().lemma_sort_by_ensures(lex_leq_fn());
    broadcast use vstd::seq_lib::to_multiset_len;

    assert(l.names().len() == 0);
    assert(l.names().sort_by(lex_leq_fn()).to_multiset() == l.names().to_multiset());
    assert(sorted_layer_names(l).len() == sorted_layer_names(l).to_multiset().len());
    assert(l.names().len() == l.names().to_multiset().len());
    assert(sorted_layer_names(l).len() == 0);
    assert(sorted_layer_names(l) =~= Seq::<Seq<char>>::empty());
}

} // verus!
