//! Local per-thread runtime mode persistence.
//!
//! The app server does not return a thread's collaboration mode in thread
//! list/read snapshots, so the mobile client stores the user's last local
//! choice beside its other preferences. Only non-default modes are kept.
//! Reading and writing the file is the caller's part; this module decides
//! what the file holds.
use vstd::prelude::*;

use crate::text::{owned, text_eq};

verus! {

broadcast use vstd::string::group_string_axioms;

/// The file the modes are kept in, inside the preferences directory.
pub const THREAD_MODES_FILE: &'static str = "thread_modes.json";

/// The version of the file that this client writes.
pub const CURRENT_VERSION: u32 = 1;

/// The collaboration mode of a thread.
#[derive(Debug, Clone, Copy, PartialEq, Eq)]
pub enum AppModeKind {
    Default,
    Plan,
}

/// A thread on a server.
#[derive(Debug, Clone, PartialEq, Eq)]
pub struct ThreadKey {
    pub server_id: String,
    pub thread_id: String,
}

/// One remembered mode.
#[derive(Debug, PartialEq, Eq)]
pub struct PersistedThreadMode {
    pub server_id: String,
    pub thread_id: String,
    pub mode: AppModeKind,
}

/// The contents of the modes file.
#[derive(Debug, PartialEq, Eq)]
pub struct PersistedThreadModes {
    pub version: u32,
    pub modes: Vec<PersistedThreadMode>,
}

pub struct KeyView {
    pub server_id: Seq<char>,
    pub thread_id: Seq<char>,
}

pub struct ModeEntryView {
    pub server_id: Seq<char>,
    pub thread_id: Seq<char>,
    pub mode: AppModeKind,
}

pub struct ModesView {
    pub version: u32,
    pub modes: Seq<ModeEntryView>,
}

impl View for ThreadKey {
    type V = KeyView;

    open spec fn view(&self) -> KeyView {
        KeyView { server_id: self.server_id@, thread_id: self.thread_id@ }
    }
}

impl View for PersistedThreadMode {
    type V = ModeEntryView;

    open spec fn view(&self) -> ModeEntryView {
        ModeEntryView { server_id: self.server_id@, thread_id: self.thread_id@, mode: self.mode }
    }
}

pub open spec fn entries_view(modes: Seq<PersistedThreadMode>) -> Seq<ModeEntryView> {
    modes.map_values(|e: PersistedThreadMode| e@)
}

impl View for PersistedThreadModes {
    type V = ModesView;

    open spec fn view(&self) -> ModesView {
        ModesView { version: self.version, modes: entries_view(self.modes@) }
    }
}

impl Default for PersistedThreadModes {
    fn default() -> (r: Self)
        ensures
            r@ == (ModesView { version: 0, modes: Seq::empty() }),
    {
        let r = PersistedThreadModes { version: 0, modes: Vec::new() };
        assert(r@.modes =~= Seq::<ModeEntryView>::empty());
        r
    }
}

/// The entry is about the thread.
pub open spec fn is_for(e: ModeEntryView, key: KeyView) -> bool {
    e.server_id == key.server_id && e.thread_id == key.thread_id
}

/// The mode remembered for a thread: that of its first entry.
pub open spec fn mode_of(modes: Seq<ModeEntryView>, key: KeyView) -> Option<AppModeKind>
    decreases modes.len(),
{
    if modes.len() == 0 {
        None
    } else if is_for(modes[0], key) {
        Some(modes[0].mode)
    } else {
        mode_of(modes.drop_first(), key)
    }
}

/// The entries that are not about the thread, in order.
pub open spec fn without_key(modes: Seq<ModeEntryView>, key: KeyView) -> Seq<ModeEntryView> {
    modes.filter(|e: ModeEntryView| !is_for(e, key))
}

/// The contents after a thread's mode is set: written at the current
/// version, the thread's entries gone, and a new entry at the end unless the
/// mode is the default one.
pub open spec fn with_mode(m: ModesView, key: KeyView, mode: AppModeKind) -> ModesView {
    let kept = without_key(m.modes, key);
    ModesView {
        version: CURRENT_VERSION,
        modes: if mode == AppModeKind::Default {
            kept
        } else {
            kept.push(ModeEntryView { server_id: key.server_id, thread_id: key.thread_id, mode })
        },
    }
}

/// Where the modes file lies for a preferences directory (what
/// `PathBuf::from(directory).join(THREAD_MODES_FILE)` names on Unix).
pub open spec fn path_in(directory: Seq<char>, file: Seq<char>) -> Seq<char> {
    if directory.len() == 0 {
        file
    } else if directory.last() == '/' {
        directory + file
    } else {
        directory + "/"@ + file
    }
}

/// The path of the modes file in a preferences directory.
pub fn thread_modes_path(directory: &str) -> (r: String)
    ensures
        r@ == path_in(directory@, THREAD_MODES_FILE@),
{
    let cs = crate::text::chars_of(directory);
    let mut out = owned(directory);
    if cs.len() > 0 && cs[cs.len() - 1] != '/' {
        out.append("/");
    }
    out.append(THREAD_MODES_FILE);
    out
}

fn is_for_key(e: &PersistedThreadMode, key: &ThreadKey) -> (r: bool)
    ensures
        r == is_for(e@, key@),
{
    text_eq(e.server_id.as_str(), key.server_id.as_str()) && text_eq(
        e.thread_id.as_str(),
        key.thread_id.as_str(),
    )
}

proof fn lemma_mode_of_found(modes: Seq<ModeEntryView>, key: KeyView, i: int)
    requires
        0 <= i < modes.len(),
        is_for(modes[i], key),
        forall|j: int| 0 <= j < i ==> !is_for(modes[j], key),
    ensures
        mode_of(modes, key) == Some(modes[i].mode),
    decreases i,
{
    if i > 0 {
        lemma_mode_of_found(modes.drop_first(), key, i - 1);
    }
}

proof fn lemma_mode_of_absent(modes: Seq<ModeEntryView>, key: KeyView)
    requires
        forall|j: int| 0 <= j < modes.len() ==> !is_for(modes[j], key),
    ensures
        mode_of(modes, key) is None,
    decreases modes.len(),
{
    if modes.len() > 0 {
        lemma_mode_of_absent(modes.drop_first(), key);
    }
}

/// The mode remembered for a thread, if any.
pub fn read_mode(persisted: &PersistedThreadModes, key: &ThreadKey) -> (r: Option<AppModeKind>)
    ensures
        r == mode_of(persisted@.modes, key@),
{
    let mut i: usize = 0;
    while i < persisted.modes.len()
        invariant
            i <= persisted.modes@.len(),
            forall|j: int| 0 <= j < i ==> !is_for(persisted@.modes[j], key@),
        decreases persisted.modes@.len() - i,
    {
        if is_for_key(&persisted.modes[i], key) {
            proof {
                lemma_mode_of_found(persisted@.modes, key@, i as int);
            }
            return Some(persisted.modes[i].mode);
        }
        i = i + 1;
    }
    proof {
        lemma_mode_of_absent(persisted@.modes, key@);
    }
    None
}

/// Sets a thread's mode: the contents are written at the current version,
/// the thread's entries are dropped, and a new one is added unless the mode
/// is the default one.
pub fn set_mode(persisted: &mut PersistedThreadModes, key: &ThreadKey, mode: AppModeKind)
    ensures
        final(persisted)@ == with_mode(old(persisted)@, key@, mode),
{
    let ghost m0 = persisted@;
    let ghost pred = |e: ModeEntryView| !is_for(e, key@);
    let mut kept: Vec<PersistedThreadMode> = Vec::new();
    let mut i: usize = 0;
    while i < persisted.modes.len()
        invariant
            persisted@ == m0,
            i <= persisted.modes@.len(),
            pred == (|e: ModeEntryView| !is_for(e, key@)),
            entries_view(kept@) == m0.modes.take(i as int).filter(pred),
        decreases persisted.modes@.len() - i,
    {
        proof {
            reveal(Seq::filter);
            assert(m0.modes.take(i + 1).drop_last() =~= m0.modes.take(i as int));
            assert(m0.modes.take(i + 1).last() == m0.modes[i as int]);
        }
        let entry = &persisted.modes[i];
        if !is_for_key(entry, key) {
            let ghost before = kept@;
            kept.push(
                PersistedThreadMode {
                    server_id: entry.server_id.clone(),
                    thread_id: entry.thread_id.clone(),
                    mode: entry.mode,
                },
            );
            assert(entries_view(kept@) =~= entries_view(before).push(m0.modes[i as int]));
        }
        i = i + 1;
    }
    assert(m0.modes.take(m0.modes.len() as int) =~= m0.modes);
    match mode {
        AppModeKind::Default => {},
        _ => {
            let ghost before = kept@;
            kept.push(
                PersistedThreadMode {
                    server_id: key.server_id.clone(),
                    thread_id: key.thread_id.clone(),
                    mode,
                },
            );
            assert(entries_view(kept@) =~= entries_view(before).push(
                ModeEntryView { server_id: key@.server_id, thread_id: key@.thread_id, mode },
            ));
        },
    }
    persisted.version = CURRENT_VERSION;
    persisted.modes = kept;
}

// ---------------------------------------------------------------------------
// Laws of the mode store.
proof fn lemma_mode_of_push(s: Seq<ModeEntryView>, e: ModeEntryView, key: KeyView)
    ensures
        mode_of(s.push(e), key) == match mode_of(s, key) {
            Some(x) => Some(x),
            None => if is_for(e, key) {
                Some(e.mode)
            } else {
                None
            },
        },
    decreases s.len(),
{
    let t = s.push(e);
    if s.len() > 0 {
        assert(t[0] == s[0]);
        assert(t.drop_first() =~= s.drop_first().push(e));
        lemma_mode_of_push(s.drop_first(), e, key);
        if !is_for(s[0], key) {
            assert(mode_of(t, key) == mode_of(t.drop_first(), key));
            assert(mode_of(s, key) == mode_of(s.drop_first(), key));
        }
    } else {
        assert(t[0] == e);
        assert(t.drop_first() =~= Seq::<ModeEntryView>::empty());
        assert(mode_of(Seq::<ModeEntryView>::empty(), key) is None);
        assert(mode_of(s, key) is None);
    }
}

proof fn lemma_mode_of_without_key(modes: Seq<ModeEntryView>, key: KeyView, other: KeyView)
    ensures
        mode_of(without_key(modes, key), other) == if other == key {
            None
        } else {
            mode_of(modes, other)
        },
    decreases modes.len(),
{
    reveal(Seq::filter);
    if modes.len() > 0 {
        let rest = modes.drop_last();
        let e = modes.last();
        lemma_mode_of_without_key(rest, key, other);
        assert(modes =~= rest.push(e));
        lemma_mode_of_push(rest, e, other);
        if !is_for(e, key) {
            lemma_mode_of_push(without_key(rest, key), e, other);
        }
    }
}

/// Setting a thread's mode and reading it back gives that mode; the default
/// mode is not kept, so nothing is read back for it.
pub proof fn lemma_read_after_set(m: ModesView, key: KeyView, mode: AppModeKind)
    ensures
        mode_of(with_mode(m, key, mode).modes, key) == if mode == AppModeKind::Default {
            None::<AppModeKind>
        } else {
            Some(mode)
        },
{
    lemma_mode_of_without_key(m.modes, key, key);
    let kept = without_key(m.modes, key);
    let e = ModeEntryView { server_id: key.server_id, thread_id: key.thread_id, mode };
    lemma_mode_of_push(kept, e, key);
}

/// Setting one thread's mode leaves what is read for every other thread.
pub proof fn lemma_set_keeps_other_threads(
    m: ModesView,
    key: KeyView,
    other: KeyView,
    mode: AppModeKind,
)
    requires
        !(other.server_id == key.server_id && other.thread_id == key.thread_id),
    ensures
        mode_of(with_mode(m, key, mode).modes, other) == mode_of(m.modes, other),
{
    lemma_mode_of_without_key(m.modes, key, other);
    let kept = without_key(m.modes, key);
    let e = ModeEntryView { server_id: key.server_id, thread_id: key.thread_id, mode };
    lemma_mode_of_push(kept, e, other);
}

/// No entry holds the default mode.
pub open spec fn only_non_default(m: ModesView) -> bool {
    forall|i: int| 0 <= i < m.modes.len() ==> m.modes[i].mode != AppModeKind::Default
}

/// Only non-default modes are kept: setting a mode keeps a store without
/// default entries so.
pub proof fn lemma_set_keeps_only_non_default(m: ModesView, key: KeyView, mode: AppModeKind)
    requires
        only_non_default(m),
    ensures
        only_non_default(with_mode(m, key, mode)),
{
    broadcast use vstd::seq_lib::group_filter_ensures;
    let pred = |e: ModeEntryView| !is_for(e, key);
    let kept = m.modes.filter(pred);
    assert forall|i: int| 0 <= i < kept.len() implies kept[i].mode != AppModeKind::Default by {
        assert(kept.contains(kept[i]));
        m.modes.lemma_filter_contains_rev(pred, kept[i]);
    }
}

/// After a thread's mode is set, at most one entry is about the thread.
pub proof fn lemma_set_leaves_one_entry(m: ModesView, key: KeyView, mode: AppModeKind)
    ensures
        forall|i: int, j: int|
            0 <= i < with_mode(m, key, mode).modes.len() && 0 <= j < with_mode(
                m,
                key,
                mode,
            ).modes.len() && is_for(with_mode(m, key, mode).modes[i], key) && is_for(
                with_mode(m, key, mode).modes[j],
                key,
            ) ==> i == j,
{
    broadcast use vstd::seq_lib::group_filter_ensures;
    let pred = |e: ModeEntryView| !is_for(e, key);
    let kept = m.modes.filter(pred);
    assert forall|i: int| 0 <= i < kept.len() implies !is_for(kept[i], key) by {
        assert(pred(kept[i]));
    }
}

/// Setting a thread's mode twice is setting it once.
pub proof fn lemma_set_mode_idempotent(m: ModesView, key: KeyView, mode: AppModeKind)
    ensures
        with_mode(with_mode(m, key, mode), key, mode) == with_mode(m, key, mode),
{
    broadcast use vstd::seq_lib::group_filter_ensures;
    let pred = |e: ModeEntryView| !is_for(e, key);
    let kept = m.modes.filter(pred);
    let e = ModeEntryView { server_id: key.server_id, thread_id: key.thread_id, mode };
    assert forall|i: int| 0 <= i < kept.len() implies pred(#[trigger] kept[i]) by {
        m.modes.lemma_filter_pred(pred, i);
    }
    lemma_filter_keeps_all(kept, pred);
    if mode != AppModeKind::Default {
        kept.lemma_filter_push(e, pred);
        assert(!pred(e));
    }
    assert(with_mode(with_mode(m, key, mode), key, mode).modes =~= with_mode(m, key, mode).modes);
}

/// Filtering a sequence all of whose items pass leaves it as it is.
proof fn lemma_filter_keeps_all(s: Seq<ModeEntryView>, pred: spec_fn(ModeEntryView) -> bool)
    requires
        forall|i: int| 0 <= i < s.len() ==> pred(#[trigger] s[i]),
    ensures
        s.filter(pred) == s,
    decreases s.len(),
{
    reveal(Seq::filter);
    if s.len() > 0 {
        let d = s.drop_last();
        assert forall|i: int| 0 <= i < d.len() implies pred(#[trigger] d[i]) by {
            assert(d[i] == s[i]);
        }
        lemma_filter_keeps_all(d, pred);
        assert(pred(s[s.len() - 1]));
        assert(d.push(s.last()) =~= s);
    }
}

/// The two entries are about the same thread.
pub open spec fn same_thread(a: ModeEntryView, b: ModeEntryView) -> bool {
    a.server_id == b.server_id && a.thread_id == b.thread_id
}

/// No thread has two entries.
pub open spec fn one_entry_per_thread(modes: Seq<ModeEntryView>) -> bool {
    forall|i: int, j: int|
        0 <= i < j < modes.len() ==> !same_thread(#[trigger] modes[i], #[trigger] modes[j])
}

proof fn lemma_filter_one_entry(s: Seq<ModeEntryView>, pred: spec_fn(ModeEntryView) -> bool)
    requires
        one_entry_per_thread(s),
    ensures
        one_entry_per_thread(s.filter(pred)),
    decreases s.len(),
{
    broadcast use vstd::seq_lib::group_filter_ensures;
    reveal(Seq::filter);
    if s.len() > 0 {
        let d = s.drop_last();
        assert forall|i: int, j: int| 0 <= i < j < d.len() implies !same_thread(
            #[trigger] d[i],
            #[trigger] d[j],
        ) by {
            assert(d[i] == s[i] && d[j] == s[j]);
        }
        lemma_filter_one_entry(d, pred);
        let sub = d.filter(pred);
        if pred(s.last()) {
            let f = sub.push(s.last());
            assert forall|i: int, j: int| 0 <= i < j < f.len() implies !same_thread(
                #[trigger] f[i],
                #[trigger] f[j],
            ) by {
                if j == f.len() - 1 {
                    assert(sub.contains(sub[i]));
                    d.lemma_filter_contains_rev(pred, sub[i]);
                    let k = choose|k: int| 0 <= k < d.len() && d[k] == sub[i];
                    assert(s[k] == d[k]);
                    assert(!same_thread(s[k], s[s.len() - 1]));
                } else {
                    assert(f[i] == sub[i] && f[j] == sub[j]);
                }
            }
        }
    }
}

/// The store stays well formed: written at the current version, with no
/// entry of the default mode and one entry at most for each thread, when it
/// was so before (an empty store is so).
pub proof fn lemma_set_keeps_store_well_formed(m: ModesView, key: KeyView, mode: AppModeKind)
    requires
        only_non_default(m),
        one_entry_per_thread(m.modes),
    ensures
        with_mode(m, key, mode).version == CURRENT_VERSION,
        only_non_default(with_mode(m, key, mode)),
        one_entry_per_thread(with_mode(m, key, mode).modes),
        one_entry_per_thread(Seq::<ModeEntryView>::empty()),
{
    broadcast use vstd::seq_lib::group_filter_ensures;
    lemma_set_keeps_only_non_default(m, key, mode);
    let pred = |e: ModeEntryView| !is_for(e, key);
    let kept = m.modes.filter(pred);
    lemma_filter_one_entry(m.modes, pred);
    if mode != AppModeKind::Default {
        let e = ModeEntryView { server_id: key.server_id, thread_id: key.thread_id, mode };
        let f = kept.push(e);
        assert forall|i: int, j: int| 0 <= i < j < f.len() implies !same_thread(
            #[trigger] f[i],
            #[trigger] f[j],
        ) by {
            if j == f.len() - 1 {
                assert(pred(kept[i]));
            } else {
                assert(f[i] == kept[i] && f[j] == kept[j]);
            }
        }
    }
}

} // verus!
