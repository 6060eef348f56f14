//! Built-in plugins: the host surface a plugin's dispatch receives, the
//! plugin registry, command routing and ribbon-tab merging.

use vstd::prelude::*;

use crate::command_line::{push_capped, EntryKind};
use crate::demo_plugin::DemoPlugin;
use crate::studio::OpenCADStudio;

verus! {

/// The runtime surface a plugin's `dispatch` receives.
pub trait HostApi {
    /// The command-line history the host shows, oldest first.
    spec fn messages(&self) -> Seq<(EntryKind, Seq<char>)>;

    /// Shows an information line on the command line.
    fn push_info(&mut self, msg: &str)
        ensures
            final(self).messages() == push_capped(old(self).messages(), (EntryKind::Info, msg@)),
    ;
}

/// The application is the host plugins act on: their messages go to its
/// command line.
impl HostApi for OpenCADStudio {
    open spec fn messages(&self) -> Seq<(EntryKind, Seq<char>)> {
        self.command_line@.history
    }

    fn push_info(&mut self, msg: &str) {
        self.command_line.push_info(msg);
    }
}

/// A plugin's identity and the parts of the host it claims.
pub struct PluginManifest {
    pub id: &'static str,
    pub name: &'static str,
    pub version: &'static str,
    pub description: &'static str,
    /// Position of the plugin's ribbon tab among the add-on tabs.
    pub ribbon_order: i32,
    /// XDATA application names the plugin owns.
    pub xdata_apps: Vec<&'static str>,
    /// Command-name prefixes the plugin answers.
    pub command_prefixes: Vec<&'static str>,
}

/// A ribbon tab.
pub struct RibbonModule {
    pub title: &'static str,
}

/// An add-on package: its manifest, its ribbon tab and its command dispatch.
pub trait BuiltinPlugin {
    fn manifest(&self) -> PluginManifest;

    fn ribbon(&self) -> RibbonModule;

    /// Handles `cmd`; true when the plugin took it.
    fn dispatch<H: HostApi>(&self, host: &mut H, cmd: &str) -> bool;
}

/// The plugins built into the application.
pub enum RegisteredPlugin {
    Demo(DemoPlugin),
}

impl RegisteredPlugin {
    /// The command the plugin answers.
    pub open spec fn command(self) -> Seq<char> {
        match self {
            RegisteredPlugin::Demo(_) => "DP_HELLO"@,
        }
    }

    /// The line the plugin shows when it answers.
    pub open spec fn reply(self) -> Seq<char> {
        match self {
            RegisteredPlugin::Demo(_) => "Hello from demo_plugin (plugin host OK)."@,
        }
    }

    /// The plugin's ribbon position.
    pub open spec fn order(self) -> i32 {
        match self {
            RegisteredPlugin::Demo(_) => crate::demo_plugin::RIBBON_ORDER,
        }
    }

    /// The plugin's ribbon-tab title.
    pub open spec fn title(self) -> Seq<char> {
        match self {
            RegisteredPlugin::Demo(_) => "Demo Plugin"@,
        }
    }

    /// The plugin's identifier.
    pub open spec fn id(self) -> Seq<char> {
        match self {
            RegisteredPlugin::Demo(_) => crate::demo_plugin::PLUGIN_ID@,
        }
    }

    /// The plugin's display name.
    pub open spec fn name(self) -> Seq<char> {
        match self {
            RegisteredPlugin::Demo(_) => "Demo Plugin"@,
        }
    }

    /// The plugin's version.
    pub open spec fn version(self) -> Seq<char> {
        match self {
            RegisteredPlugin::Demo(_) => "0.1.0"@,
        }
    }

    /// The plugin's one-line description.
    pub open spec fn description(self) -> Seq<char> {
        match self {
            RegisteredPlugin::Demo(_) => "Minimal add-on for plugin-host integration tests"@,
        }
    }

    /// The XDATA application names the plugin owns.
    pub open spec fn xdata_apps(self) -> Seq<Seq<char>> {
        match self {
            RegisteredPlugin::Demo(_) => seq![],
        }
    }

    /// The command-name prefixes the plugin answers.
    pub open spec fn command_prefixes(self) -> Seq<Seq<char>> {
        match self {
            RegisteredPlugin::Demo(_) => seq!["DP_"@],
        }
    }
}

impl BuiltinPlugin for RegisteredPlugin {
    fn manifest(&self) -> (r: PluginManifest)
        ensures
            r.id@ == self.id(),
            r.name@ == self.name(),
            r.version@ == self.version(),
            r.description@ == self.description(),
            r.ribbon_order == self.order(),
            r.xdata_apps@.len() == self.xdata_apps().len(),
            forall|i: int| 0 <= i < r.xdata_apps@.len() ==> (#[trigger] r.xdata_apps@[i])@ == self.xdata_apps()[i],
            r.command_prefixes@.len() == self.command_prefixes().len(),
            forall|i: int|
                0 <= i < r.command_prefixes@.len() ==> (#[trigger] r.command_prefixes@[i])@
                    == self.command_prefixes()[i],
    {
        match self {
            RegisteredPlugin::Demo(p) => p.manifest(),
        }
    }

    fn ribbon(&self) -> (r: RibbonModule)
        ensures
            r.title@ == self.title(),
    {
        match self {
            RegisteredPlugin::Demo(p) => p.ribbon(),
        }
    }

    fn dispatch<H: HostApi>(&self, host: &mut H, cmd: &str) -> (r: bool)
        ensures
            r == (cmd@ == self.command()),
            r ==> final(host).messages() == push_capped(
                old(host).messages(),
                (EntryKind::Info, self.reply()),
            ),
            !r ==> final(host).messages() == old(host).messages(),
    {
        match self {
            RegisteredPlugin::Demo(p) => p.dispatch(host, cmd),
        }
    }
}

/// Every registered built-in plugin.
pub fn all_plugins() -> (r: Vec<RegisteredPlugin>)
    ensures
        r@.len() == 1,
        r@[0] is Demo,
{
    vec![RegisteredPlugin::Demo(DemoPlugin)]
}

/// Where an item with key `key` goes in `s`: after every item whose key is
/// not greater.
pub open spec fn insert_pos<T>(s: Seq<(i32, T)>, key: i32) -> int
    decreases s.len(),
{
    if s.len() == 0 {
        0
    } else if s[0].0 > key {
        0
    } else {
        1 + insert_pos(s.drop_first(), key)
    }
}

pub proof fn lemma_insert_pos_bounds<T>(s: Seq<(i32, T)>, key: i32)
    ensures
        0 <= insert_pos(s, key) <= s.len(),
    decreases s.len(),
{
    if s.len() > 0 && s[0].0 <= key {
        lemma_insert_pos_bounds(s.drop_first(), key);
    }
}

proof fn lemma_insert_pos<T>(s: Seq<(i32, T)>, key: i32, k: int)
    requires
        0 <= k <= s.len(),
        forall|i: int| 0 <= i < k ==> (#[trigger] s[i]).0 <= key,
        k == s.len() || s[k].0 > key,
    ensures
        insert_pos(s, key) == k,
    decreases k,
{
    if k > 0 {
        let t = s.drop_first();
        assert forall|i: int| 0 <= i < k - 1 implies (#[trigger] t[i]).0 <= key by {
            assert(t[i] == s[i + 1]);
        }
        lemma_insert_pos(t, key, k - 1);
    }
}

/// `s` stably sorted by key: items with equal keys keep their order.
pub open spec fn sorted_by_order<T>(s: Seq<(i32, T)>) -> Seq<(i32, T)>
    decreases s.len(),
{
    if s.len() == 0 {
        seq![]
    } else {
        let t = sorted_by_order(s.drop_last());
        t.insert(insert_pos(t, s.last().0), s.last())
    }
}

proof fn lemma_sorted_len<T>(s: Seq<(i32, T)>)
    ensures
        sorted_by_order(s).len() == s.len(),
    decreases s.len(),
{
    if s.len() > 0 {
        lemma_sorted_len(s.drop_last());
        lemma_insert_pos_bounds(sorted_by_order(s.drop_last()), s.last().0);
    }
}

/// `v` stably sorted by key.
pub fn sort_by_order<T>(v: Vec<(i32, T)>) -> (r: Vec<(i32, T)>)
    ensures
        r@ == sorted_by_order(v@),
{
    let ghost s = v@;
    let mut rest = v;
    let mut out: Vec<(i32, T)> = Vec::new();
    let mut i: usize = 0;
    let n = rest.len();
    proof {
        assert(s.take(0) =~= Seq::<(i32, T)>::empty());
    }
    while rest.len() > 0
        invariant
            s.len() == n,
            i + rest@.len() == s.len(),
            rest@ == s.skip(i as int),
            out@ == sorted_by_order(s.take(i as int)),
        decreases rest@.len(),
    {
        let x = rest.remove(0);
        let key = x.0;
        proof {
            lemma_sorted_len(s.take(i as int));
        }
        let mut j: usize = 0;
        while j < out.len() && out[j].0 <= key
            invariant
                j <= out@.len(),
                forall|k: int| 0 <= k < j ==> (#[trigger] out@[k]).0 <= key,
            decreases out@.len() - j,
        {
            j = j + 1;
        }
        proof {
            lemma_insert_pos(out@, key, j as int);
            assert(s.take(i + 1).drop_last() =~= s.take(i as int));
            assert(s.take(i + 1).last() == x);
            assert(rest@ =~= s.skip(i + 1));
        }
        out.insert(j, x);
        i = i + 1;
    }
    proof {
        assert(s.take(i as int) =~= s);
    }
    out
}

/// The core ribbon tabs followed by the add-on tabs, the latter ordered by
/// their manifests' `ribbon_order`.
pub fn all_ribbon_modules(core: Vec<RibbonModule>) -> (r: Vec<RibbonModule>)
    ensures
        r@.len() == core@.len() + 1,
        forall|i: int| 0 <= i < core@.len() ==> r@[i] == core@[i],
        r@.last().title@ == "Demo Plugin"@,
{
    let plugins = all_plugins();
    let mut addons: Vec<(i32, RibbonModule)> = Vec::new();
    let mut i: usize = 0;
    while i < plugins.len()
        invariant
            i <= plugins@.len(),
            plugins@.len() == 1,
            plugins@[0] is Demo,
            addons@.len() == i,
            forall|k: int| 0 <= k < i ==> (#[trigger] addons@[k]).1.title@ == plugins@[k].title(),
        decreases plugins@.len() - i,
    {
        let p = &plugins[i];
        addons.push((p.manifest().ribbon_order, p.ribbon()));
        i = i + 1;
    }
    let sorted = sort_by_order(addons);
    proof {
        let s = addons@;
        assert(s.drop_last() =~= Seq::<(i32, RibbonModule)>::empty());
        assert(sorted_by_order(s.drop_last()) =~= Seq::<(i32, RibbonModule)>::empty());
        assert(sorted@ =~= s);
    }
    let mut out = core;
    let mut rest = sorted;
    let ghost core_seq = out@;
    while rest.len() > 0
        invariant
            out@.len() + rest@.len() == core_seq.len() + 1,
            forall|i: int| 0 <= i < core_seq.len() ==> out@[i] == core_seq[i],
            rest@.len() > 0 ==> rest@.last().1.title@ == "Demo Plugin"@,
            rest@.len() == 0 ==> out@.last().title@ == "Demo Plugin"@,
            out@.len() >= core_seq.len(),
        decreases rest@.len(),
    {
        let (_, m) = rest.remove(0);
        out.push(m);
    }
    out
}

/// Offers `cmd` to each built-in plugin in turn until one handles it; true
/// when one did. The plugins act on `app` (the document tab `tab` is theirs to
/// use).
pub fn try_dispatch(app: &mut OpenCADStudio, tab: usize, cmd: &str) -> (r: bool)
    ensures
        r == (cmd@ == "DP_HELLO"@),
        r ==> final(app).command_line@.history == push_capped(
            old(app).command_line@.history,
            (EntryKind::Info, "Hello from demo_plugin (plugin host OK)."@),
        ),
        !r ==> final(app).command_line@.history == old(app).command_line@.history,
{
    let plugins = all_plugins();
    let mut i: usize = 0;
    while i < plugins.len()
        invariant
            plugins@.len() == 1,
            plugins@[0] is Demo,
            i <= plugins@.len(),
            forall|j: int| 0 <= j < i ==> cmd@ != (#[trigger] plugins@[j]).command(),
            app.command_line@.history == old(app).command_line@.history,
        decreases plugins@.len() - i,
    {
        if plugins[i].dispatch(app, cmd) {
            return true;
        }
        i = i + 1;
    }
    proof {
        assert(cmd@ != plugins@[0].command());
    }
    false
}

proof fn lemma_insert_pos_first<T>(s: Seq<(i32, T)>, key: i32)
    ensures
        0 <= insert_pos(s, key) <= s.len(),
        forall|i: int| 0 <= i < insert_pos(s, key) ==> (#[trigger] s[i]).0 <= key,
        insert_pos(s, key) < s.len() ==> s[insert_pos(s, key)].0 > key,
    decreases s.len(),
{
    if s.len() > 0 && s[0].0 <= key {
        let t = s.drop_first();
        lemma_insert_pos_first(t, key);
        assert forall|i: int| 0 <= i < insert_pos(s, key) implies (#[trigger] s[i]).0 <= key by {
            if i > 0 {
                assert(s[i] == t[i - 1]);
            }
        }
        if insert_pos(s, key) < s.len() {
            assert(s[insert_pos(s, key)] == t[insert_pos(t, key)]);
        }
    }
}

/// Sorting by ribbon order keeps every item and orders them by key.
pub proof fn lemma_sorted_by_order<T>(s: Seq<(i32, T)>)
    ensures
        sorted_by_order(s).to_multiset() == s.to_multiset(),
        forall|i: int, j: int|
            0 <= i <= j < sorted_by_order(s).len() ==> (#[trigger] sorted_by_order(s)[i]).0
                <= (#[trigger] sorted_by_order(s)[j]).0,
    decreases s.len(),
{
    if s.len() == 0 {
        assert(sorted_by_order(s) =~= s);
    } else {
        let init = s.drop_last();
        let x = s.last();
        lemma_sorted_by_order(init);
        let t = sorted_by_order(init);
        let p = insert_pos(t, x.0);
        lemma_insert_pos_first(t, x.0);
        vstd::seq_lib::to_multiset_insert(t, p, x);
        vstd::seq_lib::to_multiset_build(init, x);
        assert(s =~= init.push(x));
        let u = t.insert(p, x);
        assert(u == sorted_by_order(s));
        assert forall|i: int, j: int| 0 <= i <= j < u.len() implies (#[trigger] u[i]).0 <= (
        #[trigger] u[j]).0 by {
            if i < p {
                assert(u[i] == t[i]);
            } else if i > p {
                assert(u[i] == t[i - 1]);
            }
            if j < p {
                assert(u[j] == t[j]);
            } else if j > p {
                assert(u[j] == t[j - 1]);
                assert(t[p].0 <= t[j - 1].0);
            }
        }
    }
}

} // verus!
