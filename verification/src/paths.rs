//! Where things are: programs, sockets, files of the user, and the package that
//! the server is to run in.

use crate::state;
use crate::text;
use vstd::prelude::*;
use vstd::string::*;

verus! {

// ---------------------------------------------------------- named places --

/// A path below the directory for temporary files.
pub open spec fn temporary(tmp: Option<Seq<char>>, name: Seq<char>) -> Seq<char> {
    text::without_end(
        match tmp {
            Some(t) => t,
            None => "/tmp"@,
        },
        '/',
    ) + "/"@ + name
}

/// A path below the directory for temporary files, which is `/tmp` where the
/// environment names no other.
pub fn temporary_path(tmp: &Option<String>, name: &str) -> (r: String)
    ensures
        r@ == temporary(state::opt_text(*tmp), name@),
{
    let dir = match tmp {
        Some(t) => text::chars_of(t.as_str()),
        None => text::chars_of("/tmp"),
    };
    let mut out = text::text_of(text::strip_end(dir.as_slice(), '/'));
    out.append("/");
    out.append(name);
    out
}

/// The socket that pushes goal states to the debug adapter.
pub fn goal_sock_path(tmp: &Option<String>) -> (r: String)
    ensures
        r@ == temporary(state::opt_text(*tmp), "lean-goalview.sock"@),
{
    temporary_path(tmp, "lean-goalview.sock")
}

/// The socket that summons a running window.
pub fn control_sock_path(tmp: &Option<String>) -> (r: String)
    ensures
        r@ == temporary(state::opt_text(*tmp), "lean-goalview-window.sock"@),
{
    temporary_path(tmp, "lean-goalview-window.sock")
}

/// The file that records the port of the proxy's server.
pub fn port_path(tmp: &Option<String>) -> (r: String)
    ensures
        r@ == temporary(state::opt_text(*tmp), "lean-goalview.port"@),
{
    temporary_path(tmp, "lean-goalview.port")
}

/// The file that keeps the frame of the window.
pub fn frame_path(home: &str) -> (r: String)
    ensures
        r@ == home@ + "/.local/share/lean-goalview/window-frame.json"@,
{
    let mut out = home.to_owned();
    out.append("/.local/share/lean-goalview/window-frame.json");
    out
}

/// The directory of the web page: where the user wants it, else below home.
pub fn webui_dir(wanted: &Option<String>, home: &str) -> (r: String)
    ensures
        r@ == match state::opt_text(*wanted) {
            Some(dir) => dir,
            None => home@ + "/.local/share/lean-goalview/webui"@,
        },
{
    match wanted {
        Some(dir) => dir.clone(),
        None => {
            let mut out = home.to_owned();
            out.append("/.local/share/lean-goalview/webui");
            out
        },
    }
}

// --------------------------------------------------------------- programs --

/// The Lake program: the one that the user names, else the one on the search
/// path, else the one of the Lean toolchain manager.
pub open spec fn lake_program(
    named: Option<Seq<char>>,
    on_path: bool,
    home: Seq<char>,
) -> Seq<char> {
    match named {
        Some(lake) => lake,
        None => if on_path {
            "lake"@
        } else {
            home + "/.elan/bin/lake"@
        },
    }
}

/// The Lake program and its arguments. `on_path` says whether the search path
/// has a program of that name.
pub fn lake_command(named: &Option<String>, on_path: bool, home: &str) -> (r: (
    String,
    Vec<String>,
))
    ensures
        r.0@ == lake_program(state::opt_text(*named), on_path, home@),
        text::strings(r.1@) == seq!["serve"@, "--"@],
{
    let program = match named {
        Some(lake) => lake.clone(),
        None => if on_path {
            "lake".to_owned()
        } else {
            let mut out = home.to_owned();
            out.append("/.elan/bin/lake");
            out
        },
    };
    let mut args: Vec<String> = Vec::new();
    args.push("serve".to_owned());
    args.push("--".to_owned());
    proof {
        assert(text::strings(args@) =~= seq!["serve"@, "--"@]);
    }
    (program, args)
}

/// A path and a name below it. A name that is itself a full path stands alone.
pub open spec fn join(dir: Seq<char>, name: Seq<char>) -> Seq<char> {
    if dir.len() == 0 || text::begins(name, "/"@) {
        name
    } else if dir.last() == '/' {
        dir + name
    } else {
        dir + "/"@ + name
    }
}

/// Joins a name to a path.
pub fn join_path(dir: &str, name: &str) -> (r: String)
    ensures
        r@ == join(dir@, name@),
{
    let chars = text::chars_of(dir);
    let name_chars = text::chars_of(name);
    let slash = text::chars_of("/");
    if chars.len() == 0 || text::starts_with(name_chars.as_slice(), slash.as_slice()) {
        return name.to_owned();
    }
    let mut out = dir.to_owned();
    if chars[chars.len() - 1] != '/' {
        out.append("/");
    }
    out.append(name);
    out
}

/// The places where a program may be, in the order in which they are tried:
/// beside the running program, then in each directory of the search path.
pub open spec fn places(beside: Option<Seq<char>>, path: Seq<char>, name: Seq<char>) -> Seq<
    Seq<char>,
> {
    (match beside {
        Some(dir) => seq![join(dir, name)],
        None => Seq::empty(),
    }) + text::pieces(path, ':').map_values(|dir: Seq<char>| join(dir, name))
}

/// The places where the program `name` may be.
pub fn which_sibling(beside: &Option<String>, path: &str, name: &str) -> (r: Vec<String>)
    ensures
        text::strings(r@) == places(state::opt_text(*beside), path@, name@),
{
    let chars = text::chars_of(path);
    let dirs = text::split_pieces(chars.as_slice(), ':');
    let mut out: Vec<String> = Vec::new();
    if let Some(dir) = beside {
        out.push(join_path(dir.as_str(), name));
    }
    let ghost first = text::strings(out@);
    let ghost all = text::pieces(path@, ':').map_values(|dir: Seq<char>| join(dir, name@));
    let mut i: usize = 0;
    proof {
        assert(first =~= match state::opt_text(*beside) {
            Some(dir) => seq![join(dir, name@)],
            None => Seq::<Seq<char>>::empty(),
        });
        assert(first + all.take(0) =~= first);
    }
    while i < dirs.len()
        invariant
            i <= dirs.len(),
            text::texts(dirs@) == text::pieces(path@, ':'),
            all == text::pieces(path@, ':').map_values(|dir: Seq<char>| join(dir, name@)),
            text::strings(out@) == first + all.take(i as int),
        decreases dirs.len() - i,
    {
        let ghost before = text::strings(out@);
        let dir = text::text_of(dirs[i].as_slice());
        let place = join_path(dir.as_str(), name);
        let ghost p = place@;
        out.push(place);
        proof {
            assert(text::texts(dirs@)[i as int] == dirs@[i as int]@);
            assert(all[i as int] == p);
            assert(text::strings(out@) =~= before.push(p));
            assert(all.take(i + 1) =~= all.take(i as int).push(all[i as int]));
            assert(before.push(p) =~= first + all.take(i + 1));
        }
        i += 1;
    }
    proof {
        assert(text::texts(dirs@).len() == dirs@.len());
        assert(all.take(i as int) =~= all);
    }
    out
}

/// The index of the first answer that is yes.
pub fn first_found(found: &Vec<bool>) -> (r: Option<usize>)
    ensures
        match r {
            Some(i) => i < found@.len() && found@[i as int] && forall|k: int|
                0 <= k < i ==> !#[trigger] found@[k],
            None => forall|k: int| 0 <= k < found@.len() ==> !#[trigger] found@[k],
        },
{
    let mut i: usize = 0;
    while i < found.len()
        invariant
            i <= found.len(),
            forall|k: int| 0 <= k < i ==> !#[trigger] found@[k],
        decreases found.len() - i,
    {
        if found[i] {
            return Some(i);
        }
        i += 1;
    }
    None
}

/// The first place that holds a file, where `found` says of each place whether it
/// does.
pub open spec fn first_of(places: Seq<Seq<char>>, found: Seq<bool>) -> Option<Seq<char>>
    decreases places.len(),
{
    if places.len() == 0 || found.len() == 0 {
        None
    } else if found[0] {
        Some(places[0])
    } else {
        first_of(places.skip(1), found.skip(1))
    }
}

proof fn lemma_first_of(places: Seq<Seq<char>>, found: Seq<bool>, i: int)
    requires
        0 <= i <= places.len(),
        i <= found.len(),
        forall|k: int| 0 <= k < i ==> !#[trigger] found[k],
    ensures
        first_of(places, found) == first_of(places.skip(i), found.skip(i)),
    decreases i,
{
    if i == 0 {
        assert(places.skip(0) =~= places);
        assert(found.skip(0) =~= found);
    } else {
        assert(!found[0]);
        let p = places.skip(1);
        let f = found.skip(1);
        assert forall|k: int| 0 <= k < i - 1 implies !#[trigger] f[k] by {
            assert(f[k] == found[k + 1]);
        }
        lemma_first_of(p, f, i - 1);
        assert(p.skip(i - 1) =~= places.skip(i));
        assert(f.skip(i - 1) =~= found.skip(i));
    }
}

/// The first of the places that holds a file; `found` says of each place, in the
/// same order, whether it does. A place that it does not speak of holds none.
pub fn first_file(places: &Vec<String>, found: &Vec<bool>) -> (r: Option<String>)
    ensures
        state::opt_text(r) == first_of(text::strings(places@), found@),
{
    let ghost all = text::strings(places@);
    match first_found(found) {
        Some(i) => if i < places.len() {
            proof {
                lemma_first_of(all, found@, i as int);
                assert(all.skip(i as int)[0] == places@[i as int]@);
                assert(found@.skip(i as int)[0] == found@[i as int]);
            }
            Some(places[i].clone())
        } else {
            proof {
                lemma_first_of(all, found@, places@.len() as int);
            }
            None
        },
        None => {
            proof {
                let n = if places@.len() <= found@.len() {
                    places@.len() as int
                } else {
                    found@.len() as int
                };
                lemma_first_of(all, found@, n);
            }
            None
        },
    }
}

/// A helper program is the first file among its places: one beside the running
/// program goes before any on the search path, and there is none only where no
/// place holds a file.
pub proof fn law_helper_found(
    beside: Option<Seq<char>>,
    path: Seq<char>,
    name: Seq<char>,
    is_file: spec_fn(Seq<char>) -> bool,
)
    ensures
        ({
            let all = places(beside, path, name);
            let r = first_of(all, all.map_values(is_file));
            &&& r is None <==> forall|i: int| 0 <= i < all.len() ==> !is_file(#[trigger] all[i])
            &&& r matches Some(p) ==> exists|i: int|
                0 <= i < all.len() && #[trigger] all[i] == p && is_file(p) && forall|k: int|
                    0 <= k < i ==> !is_file(#[trigger] all[k])
            &&& beside matches Some(dir) ==> is_file(join(dir, name)) ==> r == Some(
                join(dir, name),
            )
        }),
{
    let all = places(beside, path, name);
    lemma_first_file(all, is_file);
    if let Some(dir) = beside {
        assert(all[0] == join(dir, name));
        assert(all.map_values(is_file)[0] == is_file(all[0]));
    }
}

proof fn lemma_first_file(all: Seq<Seq<char>>, is_file: spec_fn(Seq<char>) -> bool)
    ensures
        first_of(all, all.map_values(is_file)) is None <==> forall|i: int|
            0 <= i < all.len() ==> !is_file(#[trigger] all[i]),
        first_of(all, all.map_values(is_file)) matches Some(p) ==> exists|i: int|
            0 <= i < all.len() && #[trigger] all[i] == p && is_file(p) && forall|k: int|
                0 <= k < i ==> !is_file(#[trigger] all[k]),
    decreases all.len(),
{
    let found = all.map_values(is_file);
    if all.len() > 0 {
        assert(found[0] == is_file(all[0]));
        if !found[0] {
            let t = all.skip(1);
            assert(found.skip(1) =~= t.map_values(is_file));
            lemma_first_file(t, is_file);
            let r = first_of(all, found);
            assert(r == first_of(t, t.map_values(is_file)));
            if r is None {
                assert forall|i: int| 0 <= i < all.len() implies !is_file(#[trigger] all[i]) by {
                    if i > 0 {
                        assert(all[i] == t[i - 1]);
                    }
                }
            } else {
                let p = r->0;
                let i = choose|i: int|
                    0 <= i < t.len() && #[trigger] t[i] == p && is_file(p) && forall|k: int|
                        0 <= k < i ==> !is_file(#[trigger] t[k]);
                assert(all[i + 1] == t[i]);
                assert forall|k: int| 0 <= k < i + 1 implies !is_file(#[trigger] all[k]) by {
                    if k > 0 {
                        assert(all[k] == t[k - 1]);
                    }
                }
            }
        }
    }
}

// ----------------------------------------------------------- package root --

/// The name is that of a file that makes a directory a Lean package.
pub open spec fn is_lakefile_name(name: Seq<char>) -> bool {
    name == "lakefile.lean"@ || name == "lakefile.toml"@
}

/// Whether a file makes its directory a Lean package.
pub fn is_lakefile(name: &str) -> (r: bool)
    ensures
        r == is_lakefile_name(name@),
{
    text::same_text(name, "lakefile.lean") || text::same_text(name, "lakefile.toml")
}

/// The argument behind the first `--root`.
pub open spec fn root_argument(args: Seq<Seq<char>>) -> Option<Seq<char>>
    decreases args.len(),
{
    if args.len() < 2 {
        None
    } else if args[0] == "--root"@ {
        Some(args[1])
    } else {
        root_argument(args.skip(1))
    }
}

/// The package that the user chose: by an argument, else by the environment.
pub open spec fn chosen_root(args: Seq<Seq<char>>, named: Option<Seq<char>>) -> Option<Seq<char>> {
    match root_argument(args) {
        Some(root) => Some(root),
        None => named,
    }
}

/// The package that the user chose.
pub fn explicit_root(args: &Vec<String>, named: &Option<String>) -> (r: Option<String>)
    ensures
        state::opt_text(r) == chosen_root(text::strings(args@), state::opt_text(*named)),
{
    let ghost all = text::strings(args@);
    let mut i: usize = 0;
    proof {
        assert(all.skip(0) =~= all);
    }
    while i < args.len() && i + 1 < args.len()
        invariant
            i <= args.len(),
            all == text::strings(args@),
            root_argument(all) == root_argument(all.skip(i as int)),
        decreases args.len() - i,
    {
        proof {
            let t = all.skip(i as int);
            assert(t[0] == args@[i as int]@);
            assert(t[1] == args@[i + 1]@);
            assert(t.skip(1) =~= all.skip(i + 1));
        }
        if text::same_text(args[i].as_str(), "--root") {
            return Some(args[i + 1].clone());
        }
        i += 1;
    }
    match named {
        Some(root) => Some(root.clone()),
        None => None,
    }
}

/// A directory, and whether it holds a lakefile.
pub struct Dir {
    pub path: String,
    pub lakefile: bool,
}

/// The first directory that holds a lakefile.
pub open spec fn nearest(dirs: Seq<Dir>) -> Option<Seq<char>>
    decreases dirs.len(),
{
    if dirs.len() == 0 {
        None
    } else if dirs[0].lakefile {
        Some(dirs[0].path@)
    } else {
        nearest(dirs.skip(1))
    }
}

/// A directory, and the directories in it.
pub struct Branch {
    pub dir: Dir,
    pub inside: Vec<Dir>,
}

/// The directories among these that are packages.
pub open spec fn packages_of(dirs: Seq<Dir>) -> Seq<Seq<char>>
    decreases dirs.len(),
{
    if dirs.len() == 0 {
        Seq::empty()
    } else if dirs.last().lakefile {
        packages_of(dirs.drop_last()).push(dirs.last().path@)
    } else {
        packages_of(dirs.drop_last())
    }
}

/// The packages that a scan of two levels finds: each directory of the first
/// level and then those in it.
pub open spec fn packages_in(branches: Seq<Branch>) -> Seq<Seq<char>>
    decreases branches.len(),
{
    if branches.len() == 0 {
        Seq::empty()
    } else {
        let b = branches.last();
        packages_in(branches.drop_last()) + packages_of(seq![b.dir]) + packages_of(b.inside@)
    }
}

fn push_package(out: &mut Vec<String>, dir: &Dir)
    ensures
        text::strings(final(out)@) == text::strings(old(out)@) + packages_of(seq![*dir]),
{
    let ghost before = text::strings(out@);
    proof {
        assert(seq![*dir].drop_last() =~= Seq::<Dir>::empty());
        reveal_with_fuel(packages_of, 2);
        assert(before + Seq::<Seq<char>>::empty() =~= before);
    }
    if dir.lakefile {
        out.push(dir.path.clone());
        proof {
            assert(text::strings(out@) =~= before + packages_of(seq![*dir]));
        }
    }
}

/// The packages that a scan of two levels below a directory finds.
pub fn packages_below(branches: &Vec<Branch>) -> (r: Vec<String>)
    ensures
        text::strings(r@) == packages_in(branches@),
{
    let mut out: Vec<String> = Vec::new();
    let mut i: usize = 0;
    proof {
        assert(text::strings(out@) =~= packages_in(branches@.take(0)));
    }
    while i < branches.len()
        invariant
            i <= branches.len(),
            text::strings(out@) == packages_in(branches@.take(i as int)),
        decreases branches.len() - i,
    {
        let ghost before = text::strings(out@);
        let inside = &branches[i].inside;
        push_package(&mut out, &branches[i].dir);
        let ghost first = text::strings(out@);
        let mut k: usize = 0;
        proof {
            assert(first + packages_of(inside@.take(0)) =~= first);
        }
        while k < inside.len()
            invariant
                k <= inside.len(),
                text::strings(out@) == first + packages_of(inside@.take(k as int)),
            decreases inside.len() - k,
        {
            let ghost so_far = text::strings(out@);
            push_package(&mut out, &inside[k]);
            proof {
                let t = inside@.take(k + 1);
                assert(t.drop_last() =~= inside@.take(k as int));
                assert(t.last() == inside@[k as int]);
                let one = seq![inside@[k as int]];
                assert(one.drop_last() =~= Seq::<Dir>::empty());
                reveal_with_fuel(packages_of, 2);
                assert(text::strings(out@) =~= first + packages_of(t));
            }
            k += 1;
        }
        proof {
            assert(inside@.take(k as int) =~= inside@);
            let t = branches@.take(i + 1);
            assert(t.drop_last() =~= branches@.take(i as int));
            assert(t.last() == branches@[i as int]);
            assert(text::strings(out@) =~= packages_in(t));
        }
        i += 1;
    }
    proof {
        assert(branches@.take(i as int) =~= branches@);
    }
    out
}

/// The package to run the server in: the chosen one, else the current directory
/// or the nearest one above it that is a package, else the one package below,
/// if there is exactly one. None leaves the server where it is.
pub open spec fn root_of(
    chosen: Option<Seq<char>>,
    upward: Seq<Dir>,
    below: Seq<Seq<char>>,
) -> Option<Seq<char>> {
    match chosen {
        Some(root) => Some(root),
        None => match nearest(upward) {
            Some(root) => Some(root),
            None => if below.len() == 1 {
                Some(below[0])
            } else {
                None
            },
        },
    }
}

/// The package to run the server in. `upward` is the current directory and then
/// the ones above it, nearest first; `below` are the packages found by a scan of
/// two levels below the current directory.
pub fn package_root(chosen: &Option<String>, upward: &Vec<Dir>, below: &Vec<String>) -> (r: Option<
    String,
>)
    ensures
        state::opt_text(r) == root_of(
            state::opt_text(*chosen),
            upward@,
            text::strings(below@),
        ),
{
    if let Some(root) = chosen {
        return Some(root.clone());
    }
    let mut i: usize = 0;
    proof {
        assert(upward@.skip(0) =~= upward@);
    }
    while i < upward.len()
        invariant
            *chosen is None,
            i <= upward.len(),
            nearest(upward@) == nearest(upward@.skip(i as int)),
        decreases upward.len() - i,
    {
        proof {
            let t = upward@.skip(i as int);
            assert(t[0] == upward@[i as int]);
            assert(t.skip(1) =~= upward@.skip(i + 1));
        }
        if upward[i].lakefile {
            return Some(upward[i].path.clone());
        }
        i += 1;
    }
    if below.len() == 1 {
        Some(below[0].clone())
    } else {
        None
    }
}

/// What the user chose is used, whatever lies around it.
pub proof fn law_choice_wins(
    args: Seq<Seq<char>>,
    named: Option<Seq<char>>,
    upward: Seq<Dir>,
    below: Seq<Seq<char>>,
)
    requires
        chosen_root(args, named) is Some,
    ensures
        root_of(chosen_root(args, named), upward, below) == chosen_root(args, named),
{
}

/// Only an unambiguous package below is used: two of them are as good as none.
pub proof fn law_no_guess(upward: Seq<Dir>, below: Seq<Seq<char>>)
    requires
        forall|i: int| 0 <= i < upward.len() ==> !(#[trigger] upward[i]).lakefile,
        below.len() != 1,
    ensures
        root_of(None, upward, below) is None,
{
    lemma_none_near(upward);
}

/// A package nearer to the current directory goes before one further up.
pub proof fn law_nearest_wins(upward: Seq<Dir>, below: Seq<Seq<char>>, i: int)
    requires
        0 <= i < upward.len(),
        upward[i].lakefile,
        forall|k: int| 0 <= k < i ==> !(#[trigger] upward[k]).lakefile,
    ensures
        root_of(None, upward, below) == Some(upward[i].path@),
{
    lemma_near(upward, i);
}

proof fn lemma_none_near(dirs: Seq<Dir>)
    requires
        forall|i: int| 0 <= i < dirs.len() ==> !(#[trigger] dirs[i]).lakefile,
    ensures
        nearest(dirs) is None,
    decreases dirs.len(),
{
    if dirs.len() > 0 {
        let t = dirs.skip(1);
        assert forall|i: int| 0 <= i < t.len() implies !(#[trigger] t[i]).lakefile by {
            assert(t[i] == dirs[i + 1]);
        }
        lemma_none_near(t);
    }
}

proof fn lemma_near(dirs: Seq<Dir>, i: int)
    requires
        0 <= i < dirs.len(),
        dirs[i].lakefile,
        forall|k: int| 0 <= k < i ==> !(#[trigger] dirs[k]).lakefile,
    ensures
        nearest(dirs) == Some(dirs[i].path@),
    decreases dirs.len(),
{
    if i > 0 {
        assert(!dirs[0].lakefile);
        let t = dirs.skip(1);
        assert forall|k: int| 0 <= k < i - 1 implies !(#[trigger] t[k]).lakefile by {
            assert(t[k] == dirs[k + 1]);
        }
        assert(t[i - 1] == dirs[i]);
        lemma_near(t, i - 1);
    }
}

// -------------------------------------------------------------------- url --

/// The address of the proxy's server.
pub open spec fn local_url(port: nat) -> Seq<char> {
    "http://127.0.0.1:"@ + text::decimal(port) + "/"@
}

/// The address of the proxy's server.
pub fn server_url(port: u16) -> (r: String)
    ensures
        r@ == local_url(port as nat),
{
    let mut out = String::new();
    out.append("http://127.0.0.1:");
    text::push_decimal(&mut out, port as u64);
    out.append("/");
    proof {
        assert(out@ =~= local_url(port as nat));
    }
    out
}

/// The port that the proxy recorded; the first one it tries where it recorded
/// none.
pub open spec fn recorded_port(record: Option<Seq<char>>) -> nat {
    match record {
        Some(t) => match text::number(text::trimmed(t), u16::MAX as nat) {
            Some(port) => port,
            None => 6237,
        },
        None => 6237,
    }
}

/// The address that the window loads: the one it was given, else the one with
/// the port that the proxy recorded, else the default.
pub fn resolve_url(given: &Option<String>, record: &Option<String>) -> (r: String)
    ensures
        r@ == match state::opt_text(*given) {
            Some(url) => url,
            None => local_url(recorded_port(state::opt_text(*record))),
        },
{
    if let Some(url) = given {
        return url.clone();
    }
    let port: u16 = match record {
        Some(t) => {
            let chars = text::chars_of(t.as_str());
            match text::parse_number(text::trim(chars.as_slice()), u16::MAX as u64) {
                Some(n) => n as u16,
                None => 6237,
            }
        },
        None => 6237,
    };
    server_url(port)
}

/// What the file with the port holds.
pub fn port_record(port: u16) -> (r: String)
    ensures
        r@ == text::decimal(port as nat),
{
    let mut out = String::new();
    text::push_decimal(&mut out, port as u64);
    proof {
        assert(out@ =~= text::decimal(port as nat));
    }
    out
}

/// The window that finds the record of a port loads the address with that port.
pub proof fn law_port_found(port: u16)
    ensures
        recorded_port(Some(text::decimal(port as nat))) == port as nat,
{
    let d = text::decimal(port as nat);
    text::lemma_decimal_digits(port as nat);
    text::law_number_of_decimal(port as nat, u16::MAX as nat);
    assert(text::is_digit(d[0]));
    assert(text::is_digit(d[d.len() - 1]));
    assert(text::trimmed(d) == d);
}

// ------------------------------------------------------- laws of the places --

/// A temporary file is in the directory that the environment names, however many
/// slashes that ends with, and in `/tmp` where it names none.
pub proof fn law_temporary(dir: Seq<char>, slashes: Seq<char>, name: Seq<char>)
    requires
        dir.len() > 0 ==> dir.last() != '/',
        forall|i: int| 0 <= i < slashes.len() ==> #[trigger] slashes[i] == '/',
    ensures
        temporary(Some(dir + slashes), name) == dir + "/"@ + name,
        temporary(None, name) == "/tmp"@ + "/"@ + name,
{
    let t = dir + slashes;
    text::law_without_end(t, '/');
    let u = text::without_end(t, '/');
    if u.len() < dir.len() {
        assert(t[dir.len() - 1] == dir.last());
    }
    if u.len() > dir.len() {
        assert(u.last() == t[u.len() - 1]);
        assert(t[u.len() - 1] == slashes[u.len() - 1 - dir.len()]);
    }
    assert(u =~= dir);
    reveal_strlit("/tmp");
    assert("/tmp"@.last() == 'p');
}

/// The Lake program that the user names goes before the one on the search path, and
/// that before the one of the toolchain manager.
pub proof fn law_lake_order(named: Seq<char>, on_path: bool, home: Seq<char>)
    ensures
        lake_program(Some(named), on_path, home) == named,
        lake_program(None, true, home) == "lake"@,
        lake_program(None, false, home) == home + "/.elan/bin/lake"@,
{
}

/// A name is joined to a directory by one slash; a full path and a name without a
/// directory stand alone.
pub proof fn law_join(dir: Seq<char>, name: Seq<char>)
    requires
        name.len() > 0,
    ensures
        name[0] == '/' ==> join(dir, name) == name,
        join(Seq::empty(), name) == name,
        name[0] != '/' && dir.len() > 0 && dir.last() != '/' ==> join(dir, name) == dir + "/"@
            + name,
        name[0] != '/' ==> join(dir.push('/'), name) == dir.push('/') + name,
{
    reveal_strlit("/");
    assert(name.subrange(0, 1) =~= seq![name[0]]);
    assert("/"@ =~= seq!['/']);
    if text::begins(name, "/"@) {
        assert(name.subrange(0, 1)[0] == name[0]);
    }
    assert(dir.push('/').last() == '/');
}

/// The places of a program are beside the running one, then the directories of the
/// search path from left to right.
pub proof fn law_places(
    dir: Seq<char>,
    first: Seq<char>,
    rest: Seq<char>,
    name: Seq<char>,
    path: Seq<char>,
)
    requires
        forall|i: int| 0 <= i < first.len() ==> #[trigger] first[i] != ':',
    ensures
        places(Some(dir), path, name) == seq![join(dir, name)] + places(None, path, name),
        places(None, first, name) == seq![join(first, name)],
        places(None, first + ":"@ + rest, name) == seq![join(first, name)] + places(
            None,
            rest,
            name,
        ),
{
    reveal_strlit(":");
    assert(":"@ =~= seq![':']);
    text::law_last_piece(first, ':');
    text::law_first_piece(first, ':', rest);
    assert(first + ":"@ + rest =~= first + seq![':'] + rest);
    assert(places(None, first, name) =~= seq![join(first, name)]);
    assert(places(Some(dir), path, name) =~= seq![join(dir, name)] + places(None, path, name));
    assert(places(None, first + ":"@ + rest, name) =~= seq![join(first, name)] + places(
        None,
        rest,
        name,
    ));
}

/// Two file names make a directory a package.
pub proof fn law_lakefiles(name: Seq<char>)
    ensures
        is_lakefile_name("lakefile.lean"@),
        is_lakefile_name("lakefile.toml"@),
        name != "lakefile.lean"@ && name != "lakefile.toml"@ ==> !is_lakefile_name(name),
{
}

proof fn lemma_root_argument(before: Seq<Seq<char>>, rest: Seq<Seq<char>>)
    requires
        forall|i: int| 0 <= i < before.len() ==> #[trigger] before[i] != "--root"@,
    ensures
        root_argument(before + rest) == root_argument(rest),
    decreases before.len(),
{
    if before.len() == 0 {
        assert(before + rest =~= rest);
    } else {
        let t = before.skip(1);
        assert((before + rest)[0] == before[0]);
        assert((before + rest).skip(1) =~= t + rest);
        assert forall|i: int| 0 <= i < t.len() implies #[trigger] t[i] != "--root"@ by {
            assert(t[i] == before[i + 1]);
        }
        lemma_root_argument(t, rest);
    }
}

/// The package that an argument names goes before the one of the environment.
pub proof fn law_root_chosen(
    before: Seq<Seq<char>>,
    root: Seq<char>,
    behind: Seq<Seq<char>>,
    named: Option<Seq<char>>,
)
    requires
        forall|i: int| 0 <= i < before.len() ==> #[trigger] before[i] != "--root"@,
    ensures
        chosen_root(before + (seq!["--root"@, root] + behind), named) == Some(root),
        chosen_root(before, named) == named,
        chosen_root(before.push("--root"@), named) == named,
{
    let rest = seq!["--root"@, root] + behind;
    lemma_root_argument(before, rest);
    assert(rest[0] == "--root"@ && rest[1] == root);
    lemma_root_argument(before, Seq::empty());
    assert(before + Seq::<Seq<char>>::empty() =~= before);
    lemma_root_argument(before, seq!["--root"@]);
    assert(before + seq!["--root"@] =~= before.push("--root"@));
}

/// One package below is used where neither the user has chosen nor any directory
/// upward is one.
pub proof fn law_package_below(upward: Seq<Dir>, root: Seq<char>)
    requires
        forall|i: int| 0 <= i < upward.len() ==> !(#[trigger] upward[i]).lakefile,
    ensures
        root_of(None, upward, seq![root]) == Some(root),
{
    lemma_none_near(upward);
}

/// A scan finds the directories with a lakefile, and no others, in order.
pub proof fn law_scan(bs: Seq<Branch>, b: Branch, dirs: Seq<Dir>, d: Dir)
    ensures
        packages_of(Seq::empty()) == Seq::<Seq<char>>::empty(),
        packages_of(dirs.push(d)) == if d.lakefile {
            packages_of(dirs).push(d.path@)
        } else {
            packages_of(dirs)
        },
        packages_in(Seq::empty()) == Seq::<Seq<char>>::empty(),
        packages_in(bs.push(b)) == packages_in(bs) + (if b.dir.lakefile {
            seq![b.dir.path@]
        } else {
            Seq::empty()
        }) + packages_of(b.inside@),
{
    assert(dirs.push(d).drop_last() =~= dirs);
    assert(bs.push(b).drop_last() =~= bs);
    reveal_with_fuel(packages_of, 2);
    assert(seq![b.dir].drop_last() =~= Seq::<Dir>::empty());
    assert(packages_of(seq![b.dir]) =~= if b.dir.lakefile {
        seq![b.dir.path@]
    } else {
        Seq::empty()
    });
}

/// The address of a port; a record that is no port, or none, stands for the first
/// port that the server tries. White space around a record does not count.
pub proof fn law_addresses(port: u16, lead: Seq<char>, trail: Seq<char>, t: Seq<char>)
    requires
        forall|i: int| 0 <= i < lead.len() ==> text::is_space(#[trigger] lead[i]),
        forall|i: int| 0 <= i < trail.len() ==> text::is_space(#[trigger] trail[i]),
        text::number(text::trimmed(t), 65535) is None,
    ensures
        local_url(port as nat) == "http://127.0.0.1:"@ + text::decimal(port as nat) + "/"@,
        recorded_port(None) == 6237,
        recorded_port(Some(t)) == 6237,
        recorded_port(Some(lead + text::decimal(port as nat) + trail)) == port,
{
    let d = text::decimal(port as nat);
    text::lemma_decimal_digits(port as nat);
    assert(text::is_digit(d[0]) && text::is_digit(d[d.len() - 1]));
    text::law_trimmed(lead, d, trail);
    text::law_number_of_decimal(port as nat, u16::MAX as nat);
}

} // verus!
