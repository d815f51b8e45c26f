//! How a kernel is found and started, what its messages become, and what the
//! settings and paths around it mean.

#[allow(unused_imports)]
use vstd::prelude::*;

#[allow(unused_imports)]
use crate::config::{
    applied, config_path, configured, state_path, ConfigErrorView, ConfigView, SettingView,
};
#[allow(unused_imports)]
use crate::json::JsonView;
#[allow(unused_imports)]
use crate::kernel::{
    candidate_names, environments, iopub_event, ladder_of, launched_from, rung, shell_event,
    Channel, ContentView, EventView, LaunchActionView, LaunchEventView, LaunchView, ProbeView,
    SpecView, Stage,
};
#[allow(unused_imports)]
use crate::markdown::joined_path;
#[allow(unused_imports)]
use crate::paths::{age_text, base_start, expanded, name_of, parent_of, tidy};
#[allow(unused_imports)]
use crate::text::{decimal, has_prefix};

verus! {

// ---------------------------------------------------------------------------
// Finding
// ---------------------------------------------------------------------------

/// The requested kernel is looked for in every environment, in order, and then
/// globally, before Python is, in the same places.
pub proof fn law_places_are_tried_in_order(name: Seq<char>, venvs: Seq<Seq<char>>)
    ensures
        ({
            let l = ladder_of(candidate_names(name), venvs);
            let n = venvs.len() as int;
            &&& l.len() == (if name == "python3"@ {
                n + 1
            } else {
                2 * (n + 1)
            })
            &&& forall|i: int|
                0 <= i < n ==> #[trigger] l[i] == (ProbeView::Venv { name, venv: venvs[i] })
            &&& l[n] == (ProbeView::Global { name })
            &&& name != "python3"@ ==> l[2 * n + 1] == (ProbeView::Global { name: "python3"@ })
            &&& name != "python3"@ ==> forall|i: int|
                0 <= i < n ==> #[trigger] l[n + 1 + i] == (ProbeView::Venv {
                    name: "python3"@,
                    venv: venvs[i],
                })
        }),
{
    reveal_with_fuel(ladder_of, 3);
    let one = seq![name];
    assert(one.drop_last() =~= Seq::<Seq<char>>::empty());
    let none = Seq::<ProbeView>::empty();
    assert(ladder_of(one.drop_last(), venvs) == none);
    assert(ladder_of(one, venvs) =~= rung(name, venvs));
    if name != "python3"@ {
        let two = seq![name, "python3"@];
        assert(two.drop_last() =~= one);
        assert(ladder_of(two, venvs) == rung(name, venvs) + rung("python3"@, venvs));
    }
}

/// The active environments are looked in before those next to the notebook.
pub proof fn law_active_environments_come_first(
    venv: Seq<char>,
    conda: Seq<char>,
    dir: Seq<char>,
)
    ensures
        environments(Some(venv), Some(conda), dir) == seq![
            venv,
            conda,
            joined_path(dir, ".venv"@),
            joined_path(dir, "venv"@),
        ],
        environments(Some(venv), None, dir) == seq![
            venv,
            joined_path(dir, ".venv"@),
            joined_path(dir, "venv"@),
        ],
        environments(None, None, dir) == seq![
            joined_path(dir, ".venv"@),
            joined_path(dir, "venv"@),
        ],
{
    assert(environments(Some(venv), Some(conda), dir) =~= seq![
        venv,
        conda,
        joined_path(dir, ".venv"@),
        joined_path(dir, "venv"@),
    ]);
    assert(environments(Some(venv), None, dir) =~= seq![
        venv,
        joined_path(dir, ".venv"@),
        joined_path(dir, "venv"@),
    ]);
    assert(environments(None, None, dir) =~= seq![
        joined_path(dir, ".venv"@),
        joined_path(dir, "venv"@),
    ]);
}

// ---------------------------------------------------------------------------
// Starting
// ---------------------------------------------------------------------------

/// A kernel found in an environment is run by that environment's own Python;
/// any other program, and a kernel found globally, is run as its kernelspec
/// says.
pub proof fn law_environments_run_their_own_python(
    name: Seq<char>,
    venv: Seq<char>,
    spec: SpecView,
)
    requires
        spec.argv.len() > 0,
    ensures
        ({
            let own = launched_from(ProbeView::Venv { name, venv }, spec);
            let bare = !spec.argv[0].contains('/') && has_prefix(spec.argv[0], "python"@);
            &&& own.argv.len() == spec.argv.len()
            &&& bare ==> own.argv[0] == joined_path(venv, "bin/python"@)
            &&& !bare ==> own == spec
            &&& forall|i: int| 0 < i < spec.argv.len() ==> #[trigger] own.argv[i] == spec.argv[i]
            &&& own.name == spec.name && own.language == spec.language
        }),
        launched_from(ProbeView::Global { name }, spec) == spec,
{
}

/// From a kernelspec that was found, the steps that all go well lead to a
/// kernel that is ready: ports are found, the connection file is written with
/// them and the key, the process is spawned with that file, and the four
/// channels are connected one after the other.
pub proof fn law_a_launch_that_goes_well(
    l: LaunchView,
    ports: Seq<u16>,
    pid: Option<u32>,
)
    requires
        l.stage == Stage::FindingPorts,
        l.spec is Some,
        ports.len() == 5,
    ensures
        ({
            let (a, write) = l.stepped(LaunchEventView::Ports(ports));
            let (b, spawn) = a.stepped(LaunchEventView::Written);
            let (c, first) = b.stepped(LaunchEventView::Spawned(pid));
            let (d, second) = c.stepped(LaunchEventView::Connected);
            let (e, third) = d.stepped(LaunchEventView::Connected);
            let (f, fourth) = e.stepped(LaunchEventView::Connected);
            let (g, done) = f.stepped(LaunchEventView::Connected);
            let spec = l.spec->Some_0;
            &&& write matches LaunchActionView::Write { path, info } && {
                &&& path == l.connection_file()
                &&& info.shell_port == ports[0]
                &&& info.iopub_port == ports[1]
                &&& info.stdin_port == ports[2]
                &&& info.control_port == ports[3]
                &&& info.hb_port == ports[4]
                &&& info.key == l.key
            }
            &&& spawn == (LaunchActionView::Spawn {
                argv: spec.argv,
                file: l.connection_file(),
                dir: l.dir,
            })
            &&& first == LaunchActionView::Connect(Channel::Iopub)
            &&& second == LaunchActionView::Connect(Channel::Shell)
            &&& third == LaunchActionView::Connect(Channel::Stdin)
            &&& fourth == LaunchActionView::Connect(Channel::Control)
            &&& done matches LaunchActionView::Report(EventView::Ready(k)) && {
                &&& k.name == spec.name
                &&& k.language == spec.language
                &&& k.session == l.session
                &&& k.launch == l.launch
                &&& k.pid == pid
                &&& k.interrupt_via_message == (spec.interrupt_mode == Some("message"@))
            }
            &&& g.stage == Stage::Over
        }),
{
}

/// A place without the kernelspec leads to the next one; after the last the
/// launch has failed. Any step that fails ends the launch.
pub proof fn law_a_launch_that_fails(l: LaunchView, why: Seq<char>)
    requires
        l.stage != Stage::Over,
    ensures
        l.stage == Stage::Resolving && l.probe + 1 < l.probes.len() ==> l.stepped(
            LaunchEventView::SpecMissing,
        ).1 == LaunchActionView::Look(l.probes[l.probe + 1]),
        l.stage == Stage::Resolving && l.probe + 1 >= l.probes.len() ==> l.stepped(
            LaunchEventView::SpecMissing,
        ).0.stage == Stage::Over,
        l.stepped(LaunchEventView::Failed(why)).0.stage == Stage::Over,
        l.stepped(LaunchEventView::Failed(why)).1 matches LaunchActionView::Report(
            EventView::LaunchFailed { launch, .. },
        ) && launch == l.launch,
{
}

// ---------------------------------------------------------------------------
// Messages
// ---------------------------------------------------------------------------

/// `o` is the object `j` marked as output of this type.
pub open spec fn marked(o: JsonView, j: JsonView, ty: Seq<char>) -> bool {
    &&& o.get("output_type"@) == Some(JsonView::Str(ty))
    &&& forall|k: Seq<char>| k != "output_type"@ ==> #[trigger] o.get(k) == j.get(k)
}

/// What a cell writes, returns, displays and fails with becomes an output of
/// that kind, for the request that it answers, with everything in it.
pub proof fn law_messages_become_outputs(
    parent: Seq<char>,
    m: Map<Seq<char>, JsonView>,
)
    ensures
        ({
            let j = JsonView::Obj(m);
            &&& iopub_event(Some(parent), ContentView::Stream(j)) matches Some(
                EventView::Output { parent: p, output },
            ) && p == parent && marked(output, j, "stream"@)
            &&& iopub_event(Some(parent), ContentView::ExecuteResult(j)) matches Some(
                EventView::Output { parent: p, output },
            ) && p == parent && marked(output, j, "execute_result"@)
            &&& iopub_event(Some(parent), ContentView::DisplayData(j)) matches Some(
                EventView::Output { parent: p, output },
            ) && p == parent && marked(output, j, "display_data"@)
            &&& iopub_event(Some(parent), ContentView::Error(j)) matches Some(
                EventView::Output { parent: p, output },
            ) && p == parent && marked(output, j, "error"@)
        }),
{
}

/// The other messages of a running cell, and the replies to requests.
pub proof fn law_messages_are_understood(
    parent: Seq<char>,
    flag: bool,
    count: i64,
    matches: Seq<Seq<char>>,
    start: usize,
    data: JsonView,
    text: Seq<char>,
)
    ensures
        iopub_event(Some(parent), ContentView::ClearOutput { wait: flag }) == Some(
            EventView::Clear { parent, wait: flag },
        ),
        iopub_event(Some(parent), ContentView::ExecuteInput { count: Some(count) }) == Some(
            EventView::ExecutionCount { parent, count },
        ),
        iopub_event(Some(parent), ContentView::Status { busy: flag }) == Some(
            EventView::Status { parent, busy: flag },
        ),
        shell_event(Some(parent), ContentView::ExecuteReply) == Some(EventView::Done { parent }),
        shell_event(
            Some(parent),
            ContentView::CompleteReply { matches, start, metadata: data },
        ) matches Some(EventView::Complete { parent: p, matches: n, start: s, .. }) && p == parent
            && n == matches && s == start,
        data.get("text/plain"@) == Some(JsonView::Str(text)) ==> shell_event(
            Some(parent),
            ContentView::InspectReply { found: true, data },
        ) == Some(EventView::Inspect { parent, text: Some(text) }),
        shell_event(Some(parent), ContentView::InspectReply { found: false, data }) == Some(
            EventView::Inspect { parent, text: None },
        ),
{
}

// ---------------------------------------------------------------------------
// Settings
// ---------------------------------------------------------------------------

/// Each key sets its own setting to the value given and no other; a key that
/// is not known, or a value of another type, is refused.
pub proof fn law_settings_are_applied(c: ConfigView, i: i64, b: bool, t: Seq<char>, k: Seq<char>)
    ensures
        0 <= i <= u16::MAX ==> applied(c, "max_image_rows"@, SettingView::Integer(i)) == Ok::<
            ConfigView,
            ConfigErrorView,
        >(ConfigView { max_image_rows: i as u16, ..c }),
        0 <= i ==> applied(c, "autosave_secs"@, SettingView::Integer(i)) == Ok::<
            ConfigView,
            ConfigErrorView,
        >(ConfigView { autosave_secs: i as u64, ..c }),
        0 <= i <= u16::MAX ==> applied(c, "max_output_rows"@, SettingView::Integer(i)) == Ok::<
            ConfigView,
            ConfigErrorView,
        >(ConfigView { max_output_rows: i as usize, ..c }),
        applied(c, "theme"@, SettingView::Text(t)) == Ok::<ConfigView, ConfigErrorView>(
            ConfigView { theme: t, ..c },
        ),
        applied(c, "editor"@, SettingView::Text(t)) == Ok::<ConfigView, ConfigErrorView>(
            ConfigView { editor: t, ..c },
        ),
        applied(c, "nvim_user_config"@, SettingView::Boolean(b)) == Ok::<
            ConfigView,
            ConfigErrorView,
        >(ConfigView { nvim_user_config: b, ..c }),
        applied(c, "jedi"@, SettingView::Boolean(b)) == Ok::<ConfigView, ConfigErrorView>(
            ConfigView { jedi: b, ..c },
        ),
        applied(c, "complete_on_dot"@, SettingView::Boolean(b)) == Ok::<
            ConfigView,
            ConfigErrorView,
        >(ConfigView { complete_on_dot: b, ..c }),
        k != "max_image_rows"@ && k != "max_output_rows"@ && k != "autosave_secs"@ && k != "theme"@
            && k != "editor"@ && k != "nvim_user_config"@ && k != "jedi"@ && k
            != "complete_on_dot"@ ==> applied(c, k, SettingView::Text(t)) == Err::<
            ConfigView,
            ConfigErrorView,
        >(ConfigErrorView::UnknownKey(k)),
        i < 0 ==> applied(c, "autosave_secs"@, SettingView::Integer(i)) is Err,
        applied(c, "theme"@, SettingView::Boolean(b)) == Err::<ConfigView, ConfigErrorView>(
            ConfigErrorView::BadValue("theme"@),
        ),
        applied(c, "jedi"@, SettingView::Integer(i)) == Err::<ConfigView, ConfigErrorView>(
            ConfigErrorView::BadValue("jedi"@),
        ),
{
    reveal_strlit("max_image_rows");
    reveal_strlit("max_output_rows");
    reveal_strlit("autosave_secs");
    reveal_strlit("theme");
    reveal_strlit("editor");
    reveal_strlit("nvim_user_config");
    reveal_strlit("jedi");
    reveal_strlit("complete_on_dot");
    assert("max_image_rows"@.len() == 14);
    assert("max_output_rows"@.len() == 15 && "max_output_rows"@[0] == 'm');
    assert("autosave_secs"@.len() == 13);
    assert("theme"@.len() == 5);
    assert("editor"@.len() == 6);
    assert("nvim_user_config"@.len() == 16);
    assert("jedi"@.len() == 4);
    assert("complete_on_dot"@.len() == 15 && "complete_on_dot"@[0] == 'c');
}

/// The last setting of a file is applied to what those before it make.
pub proof fn law_settings_are_applied_in_turn(
    s: Seq<(Seq<char>, SettingView)>,
    k: Seq<char>,
    v: SettingView,
    c: ConfigView,
)
    requires
        configured(s) == Ok::<ConfigView, ConfigErrorView>(c),
    ensures
        configured(s.push((k, v))) == applied(c, k, v),
{
    assert(s.push((k, v)).drop_last() =~= s);
}

// ---------------------------------------------------------------------------
// Paths and times
// ---------------------------------------------------------------------------

/// A component: no separator in it, and not `.`.
pub open spec fn component(name: Seq<char>) -> bool {
    name.len() > 0 && !name.contains('/') && name != seq!['.'] && name != seq!['.', '.']
}

proof fn lemma_base(head: Seq<char>, name: Seq<char>)
    requires
        !name.contains('/'),
        head.len() > 0 ==> head.last() == '/',
    ensures
        base_start(head + name) == head.len(),
    decreases name.len(),
{
    if name.len() == 0 {
        assert(head + name =~= head);
    } else {
        let d = name.drop_last();
        assert((head + name).drop_last() =~= head + d);
        assert((head + name).last() == name.last());
        assert(name.contains(name[name.len() - 1]));
        assert(!d.contains('/')) by {
            if d.contains('/') {
                let k = choose|k: int| 0 <= k < d.len() && d[k] == '/';
                assert(name[k] == '/');
            }
        }
        lemma_base(head, d);
    }
}

/// A file in a directory: the directory is its parent, and its last component
/// its name.
pub proof fn law_parents_and_names(dir: Seq<char>, name: Seq<char>)
    requires
        dir.len() > 0,
        tidy(dir) == dir,
        dir != seq!['/'],
        component(name),
    ensures
        parent_of(dir + seq!['/'] + name) == Some(dir),
        name_of(dir + seq!['/'] + name) == Some(name),
        parent_of(name) == Some(Seq::<char>::empty()),
        name_of(name) == Some(name),
{
    let t = dir + seq!['/'] + name;
    let n = name.len() as int;
    assert(name.contains(name[n - 1]));
    assert(t.last() == name[n - 1]);
    assert(tidy(t) == t) by {
        if t.last() == '.' {
            if n > 1 {
                assert(name.contains(name[n - 2]));
                assert(t[t.len() - 2] == name[n - 2]);
            } else {
                assert(name =~= seq!['.']);
            }
        }
    }
    let head = dir + seq!['/'];
    lemma_base(head, name);
    assert(head + name =~= t);
    assert(t.take(head.len() as int) =~= head);
    assert(head.drop_last() =~= dir);
    assert(head.len() > 1);
    assert(tidy(head) == dir);
    assert(t.skip(head.len() as int) =~= name);
    assert(t.len() >= 3);
    let none = Seq::<char>::empty();
    lemma_base(none, name);
    assert(none + name =~= name);
    assert(tidy(name) == name) by {
        if n > 1 {
            assert(name.contains(name[n - 2]));
        }
    }
    assert(name.take(0) =~= none);
    assert(name.skip(0) =~= name);
    assert(name != seq!['/']) by {
        assert(name[n - 1] != '/');
    }
}

/// `~/` stands for the home directory; a path without it stays as it is.
pub proof fn law_tilde_is_home(home: Seq<char>, rest: Seq<char>, p: Seq<char>)
    ensures
        expanded(seq!['~', '/'] + rest, Some(home)) == joined_path(home, rest),
        expanded(p, None) == p,
        p.len() > 0 ==> p[0] != '~' ==> expanded(p, Some(home)) == p,
        config_path(Some(home), Some(p)) == Some(joined_path(home, "jotter/config.toml"@)),
        config_path(None, Some(p)) == Some(
            joined_path(joined_path(p, ".config"@), "jotter/config.toml"@),
        ),
        state_path(Some(home), Some(p)) == Some(joined_path(home, "jotter"@)),
{
    reveal_strlit("~/");
    assert("~/"@ =~= seq!['~', '/']);
    let t = seq!['~', '/'] + rest;
    assert(t.subrange(0, 2) =~= "~/"@);
    assert(t.skip(2) =~= rest);
    if p.len() > 0 && p[0] != '~' && has_prefix(p, "~/"@) {
        assert(p.subrange(0, 2)[0] == p[0]);
    }
}

/// An absolute path stays when it is joined to a directory; another follows
/// the directory behind a separator.
pub proof fn law_paths_are_joined(dir: Seq<char>, path: Seq<char>)
    requires
        dir.len() > 0,
        dir.last() != '/',
    ensures
        path.len() > 0 ==> path[0] == '/' ==> joined_path(dir, path) == path,
        path.len() > 0 ==> path[0] != '/' ==> joined_path(dir, path) == dir + seq!['/'] + path,
{
    reveal_strlit("/");
    assert("/"@ =~= seq!['/']);
    if path.len() > 0 {
        if path[0] == '/' {
            assert(path.subrange(0, 1) =~= "/"@);
        } else if has_prefix(path, "/"@) {
            assert(path.subrange(0, 1)[0] == path[0]);
        }
        if crate::text::has_suffix(dir, "/"@) {
            assert(dir.subrange(dir.len() - 1, dir.len() as int)[0] == dir.last());
        }
    }
}

/// An age is told in the largest whole unit that it reaches.
pub proof fn law_ages(s: u64)
    ensures
        s < 60 ==> age_text(s) == decimal(s as int) + seq!['s'],
        60 <= s < 3600 ==> age_text(s) == decimal(s as int / 60) + seq!['m'],
        3600 <= s < 86400 ==> age_text(s) == decimal(s as int / 3600) + seq!['h'],
        86400 <= s ==> age_text(s) == decimal(s as int / 86400) + seq!['d'],
{
    reveal_strlit("s");
    reveal_strlit("m");
    reveal_strlit("h");
    reveal_strlit("d");
    assert("s"@ =~= seq!['s']);
    assert("m"@ =~= seq!['m']);
    assert("h"@ =~= seq!['h']);
    assert("d"@ =~= seq!['d']);
}

} // verus!
