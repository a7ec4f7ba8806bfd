//! Plugin discovery: which entries of the plugins directory are loadable
//! plugin sources, and the absolute paths the listing answers with. Reading
//! the directory is the caller's I/O; the allow-list filter and the path
//! building are verified here.

use vstd::prelude::*;

verus! {

/// Whether one string ends in another.
pub open spec fn spec_ends_with(s: Seq<char>, suffix: Seq<char>) -> bool {
    s.len() >= suffix.len() && s.skip(s.len() - suffix.len()) == suffix
}

/// Whether a directory entry is a loadable plugin source: its extension is on
/// the allow-list of script extensions, and it is not a type-declaration
/// file.
pub open spec fn spec_is_plugin(name: Seq<char>) -> bool {
    &&& (spec_ends_with(name, ".js"@) || spec_ends_with(name, ".ts"@) || spec_ends_with(
        name,
        ".jsx"@,
    ) || spec_ends_with(name, ".tsx"@))
    &&& !spec_ends_with(name, ".d.ts"@)
}

/// Whether one string ends in another.
fn str_ends_with(s: &str, suffix: &str) -> (r: bool)
    ensures
        r == spec_ends_with(s@, suffix@),
{
    let n = s.unicode_len();
    let m = suffix.unicode_len();
    if m > n {
        return false;
    }
    let mut i: usize = 0;
    while i < m
        invariant
            i <= m,
            m <= n,
            n == s@.len(),
            m == suffix@.len(),
            forall|k: int| 0 <= k < i ==> s@[n - m + k] == suffix@[k],
        decreases m - i,
    {
        if s.get_char(n - m + i) != suffix.get_char(i) {
            assert(s@.skip(n as int - m as int)[i as int] == s@[n - m + i as int]);
            assert(s@.skip(n as int - m as int) != suffix@);
            return false;
        }
        i = i + 1;
    }
    assert(s@.skip(n as int - m as int) =~= suffix@);
    true
}

/// Whether a directory entry is a loadable plugin source.
pub fn is_plugin_file(name: &str) -> (r: bool)
    ensures
        r == spec_is_plugin(name@),
{
    let allowed = str_ends_with(name, ".js") || str_ends_with(name, ".ts") || str_ends_with(
        name,
        ".jsx",
    ) || str_ends_with(name, ".tsx");
    allowed && !str_ends_with(name, ".d.ts")
}

/// The plugin listing built from directory entries: each entry that is a
/// plugin source, as an absolute path under the plugins directory, in input
/// order; everything else is left out.
pub open spec fn spec_plugin_paths(dir: Seq<char>, entries: Seq<Seq<char>>) -> Seq<Seq<char>>
    decreases entries.len(),
{
    if entries.len() == 0 {
        Seq::empty()
    } else if spec_is_plugin(entries.first()) {
        seq![dir + "/"@ + entries.first()] + spec_plugin_paths(dir, entries.drop_first())
    } else {
        spec_plugin_paths(dir, entries.drop_first())
    }
}

/// Filters directory entries down to the plugin sources and answers each as
/// an absolute path under the plugins directory, keeping the input order.
pub fn plugin_paths(dir: &String, entries: &Vec<String>) -> (r: Vec<String>)
    ensures
        r.deep_view() == spec_plugin_paths(dir@, entries.deep_view()),
{
    let ghost gentries = entries.deep_view();
    let mut out: Vec<String> = Vec::new();
    let mut i: usize = 0;
    assert(gentries.skip(0) =~= gentries);
    assert(out.deep_view() + spec_plugin_paths(dir@, gentries) =~~= spec_plugin_paths(
        dir@,
        gentries,
    ));
    while i < entries.len()
        invariant
            i <= entries@.len(),
            gentries == entries.deep_view(),
            spec_plugin_paths(dir@, gentries) == out.deep_view() + spec_plugin_paths(
                dir@,
                gentries.skip(i as int),
            ),
        decreases entries.len() - i,
    {
        let ghost rest = gentries.skip(i as int);
        proof {
            assert(entries@[i as int].deep_view() =~= entries@[i as int]@);
            assert(rest[0] == gentries[i as int]);
            assert(gentries[i as int] == entries@[i as int].deep_view());
            assert(rest.drop_first() =~= gentries.skip(i as int + 1));
        }
        let ghost prev_out = out.deep_view();
        if is_plugin_file(entries[i].as_str()) {
            let mut path = dir.clone();
            path.append("/");
            path.append(entries[i].as_str());
            assert(path@ =~= dir@ + "/"@ + rest.first());
            out.push(path);
            assert(out.deep_view() =~~= prev_out.push(path@));
            assert(prev_out + (seq![dir@ + "/"@ + rest.first()] + spec_plugin_paths(
                dir@,
                rest.drop_first(),
            )) =~~= out.deep_view() + spec_plugin_paths(dir@, gentries.skip(i as int + 1)));
        } else {
            assert(spec_plugin_paths(dir@, rest) == spec_plugin_paths(
                dir@,
                gentries.skip(i as int + 1),
            ));
        }
        i = i + 1;
    }
    assert(gentries.skip(i as int) =~= Seq::<Seq<char>>::empty());
    assert(out.deep_view() + Seq::<Seq<char>>::empty() =~~= out.deep_view());
    out
}

/// The status the plugin listing answers with: the listing itself needs the
/// configuration directory resolved and the plugins directory present; a
/// missing directory is its own condition, distinct from an unresolvable
/// configuration directory.
pub fn plugins_status(config_resolved: bool, dir_exists: bool) -> (r: u16)
    ensures
        !config_resolved ==> r == 500,
        config_resolved && !dir_exists ==> r == 404,
        config_resolved && dir_exists ==> r == 200,
{
    if !config_resolved {
        500
    } else if !dir_exists {
        404
    } else {
        200
    }
}

/// The path a plugin is read from: the named entry of the plugins directory.
pub fn plugin_path(dir: &String, file_name: &String) -> (r: String)
    ensures
        r@ == dir@ + "/"@ + file_name@,
{
    let mut p = dir.clone();
    p.append("/");
    p.append(file_name.as_str());
    p
}

} // verus!
