//! Which windows are managed.

use vstd::prelude::*;
use vstd::string::*;
use crate::snapshot::WindowSnapshot;
use crate::window::Window;

verus! {

/// What the platform says of one window. A field is `None` where the platform
/// was not asked or could not answer.
pub struct WindowFacts {
    /// Whether the window has the visible style.
    pub visible: Option<bool>,
    /// Whether the compositor cloaks the window.
    pub cloaked: Option<bool>,
    /// The root ancestor of the window.
    pub ancestor: Option<Window>,
    /// The title, which is `Some(None)` for a window without one.
    pub title: Option<Option<String>>,
    /// The name of the window class.
    pub class: Option<String>,
    /// The file name of the executable that owns the window.
    pub process_name: Option<String>,
}

/// The questions that decide whether a window is managed, in the order in
/// which they are asked.
#[derive(Debug, Clone, Copy, PartialEq, Eq, Structural)]
pub enum Query {
    Visible,
    Cloaked,
    Ancestor,
    Title,
    Class,
    ProcessName,
}

/// The window classes of the desktop shell, which are never managed.
pub open spec fn system_classes() -> Seq<Seq<char>> {
    seq![
        "Progman"@,
        "TopLevelWindowForOverflowXamlIsland"@,
        "XamlExplorerHostIslandWindow"@,
        "Xaml_WindowedPopupClass"@,
        "Shell_TrayWnd"@,
    ]
}

/// The executables whose windows are never managed: launchers, overlays and
/// clipboard tools.
pub open spec fn process_names() -> Seq<Seq<char>> {
    seq![
        "Microsoft.CmdPal.UI.exe"@,
        "PowerToys.MeasureToolUI.exe"@,
        "ShareX.exe"@,
        "SnippingTool.exe"@,
        "PowerToys.PowerLauncher.exe"@,
        "Ditto.exe"@,
    ]
}

/// Whether `window` has everything that a managed window has: it is visible,
/// not cloaked, its own root ancestor, titled, and neither its class nor its
/// executable is excluded.
pub open spec fn passes_all(window: Window, facts: WindowFacts) -> bool {
    &&& facts.visible == Some(true)
    &&& facts.cloaked == Some(false)
    &&& facts.ancestor == Some(window)
    &&& facts.title matches Some(Some(title)) && title@.len() > 0
    &&& facts.class matches Some(class) && !system_classes().contains(class@)
    &&& facts.process_name matches Some(name) && !process_names().contains(name@)
}

/// The verdict on `window`. The questions are taken in their order, and the
/// first that the window fails settles the matter: the window is not managed.
/// A question without an answer that is reached before that is an error. A
/// window that passes every question is managed.
pub open spec fn managed(window: Window, facts: WindowFacts) -> Result<bool, Query> {
    if facts.visible is None {
        Err(Query::Visible)
    } else if facts.visible != Some(true) {
        Ok(false)
    } else if facts.cloaked is None {
        Err(Query::Cloaked)
    } else if facts.cloaked != Some(false) {
        Ok(false)
    } else if facts.ancestor is None {
        Err(Query::Ancestor)
    } else if facts.ancestor != Some(window) {
        Ok(false)
    } else if facts.title is None {
        Err(Query::Title)
    } else if !(facts.title matches Some(Some(title)) && title@.len() > 0) {
        Ok(false)
    } else if facts.class is None {
        Err(Query::Class)
    } else if system_classes().contains(facts.class->Some_0@) {
        Ok(false)
    } else if facts.process_name is None {
        Err(Query::ProcessName)
    } else {
        Ok(!process_names().contains(facts.process_name->Some_0@))
    }
}

/// Whether `more` holds every answer that `fewer` holds.
pub open spec fn extends(more: WindowFacts, fewer: WindowFacts) -> bool {
    &&& fewer.visible is Some ==> more.visible == fewer.visible
    &&& fewer.cloaked is Some ==> more.cloaked == fewer.cloaked
    &&& fewer.ancestor is Some ==> more.ancestor == fewer.ancestor
    &&& fewer.title is Some ==> more.title == fewer.title
    &&& fewer.class is Some ==> more.class == fewer.class
    &&& fewer.process_name is Some ==> more.process_name == fewer.process_name
}

/// A verdict that stands is not changed by further answers. So the verdict on
/// facts that were gathered one by one, only as far as needed, is the verdict
/// on all the facts.
pub proof fn lemma_verdict_stands(window: Window, fewer: WindowFacts, more: WindowFacts)
    requires
        extends(more, fewer),
        managed(window, fewer) is Ok,
    ensures
        managed(window, more) == managed(window, fewer),
{
}

/// Whether `text` reads `word`.
fn reads(text: &String, word: &str) -> (same: bool)
    ensures
        same == (text@ == word@),
{
    let other = String::from_str(word);
    *text == other
}

/// Whether `class` is one of `system_classes`.
fn is_system_class(class: &String) -> (excluded: bool)
    ensures
        excluded == system_classes().contains(class@),
{
    let excluded = reads(class, "Progman") || reads(class, "TopLevelWindowForOverflowXamlIsland")
        || reads(class, "XamlExplorerHostIslandWindow") || reads(class, "Xaml_WindowedPopupClass")
        || reads(class, "Shell_TrayWnd");
    proof {
        let listed = system_classes();
        assert(listed.len() == 5);
        assert(listed[0] == "Progman"@ && listed[1] == "TopLevelWindowForOverflowXamlIsland"@
            && listed[2] == "XamlExplorerHostIslandWindow"@ && listed[3]
            == "Xaml_WindowedPopupClass"@ && listed[4] == "Shell_TrayWnd"@);
    }
    excluded
}

/// Whether `name` is one of `process_names`.
fn is_excluded_process(name: &String) -> (excluded: bool)
    ensures
        excluded == process_names().contains(name@),
{
    let excluded = reads(name, "Microsoft.CmdPal.UI.exe") || reads(
        name,
        "PowerToys.MeasureToolUI.exe",
    ) || reads(name, "ShareX.exe") || reads(name, "SnippingTool.exe") || reads(
        name,
        "PowerToys.PowerLauncher.exe",
    ) || reads(name, "Ditto.exe");
    proof {
        let listed = process_names();
        assert(listed.len() == 6);
        assert(listed[0] == "Microsoft.CmdPal.UI.exe"@ && listed[1]
            == "PowerToys.MeasureToolUI.exe"@ && listed[2] == "ShareX.exe"@ && listed[3]
            == "SnippingTool.exe"@ && listed[4] == "PowerToys.PowerLauncher.exe"@ && listed[5]
            == "Ditto.exe"@);
    }
    excluded
}

/// Decides whether `window` is managed, from what the platform says of it.
///
/// The answer is `Ok(true)` exactly for a window that is visible, not cloaked,
/// its own root ancestor, titled, of no excluded class and of no excluded
/// executable. The questions are taken in this order. The first one that the
/// window fails makes the answer `Ok(false)`, whatever the later facts are.
/// The first one without an answer, if none failed before it, is the error.
///
/// So the facts can be gathered one by one: starting from no facts at all, a
/// caller asks the platform the question that the error names, fills the
/// answer in and decides again, until the verdict stands. No question is then
/// asked that the verdict does not need.
pub fn is_managed_window(window: Window, facts: &WindowFacts) -> (verdict: Result<bool, Query>)
    ensures
        verdict == managed(window, *facts),
        verdict == Ok::<bool, Query>(true) <==> passes_all(window, *facts),
{
    match facts.visible {
        None => {
            return Err(Query::Visible);
        },
        Some(visible) => if !visible {
            return Ok(false);
        },
    }
    match facts.cloaked {
        None => {
            return Err(Query::Cloaked);
        },
        Some(cloaked) => if cloaked {
            return Ok(false);
        },
    }
    match facts.ancestor {
        None => {
            return Err(Query::Ancestor);
        },
        Some(ancestor) => if !window.is_ancestor(ancestor) {
            return Ok(false);
        },
    }
    match &facts.title {
        None => {
            return Err(Query::Title);
        },
        Some(None) => {
            return Ok(false);
        },
        Some(Some(title)) => if title.as_str().is_empty() {
            return Ok(false);
        },
    }
    match &facts.class {
        None => {
            return Err(Query::Class);
        },
        Some(class) => if is_system_class(class) {
            return Ok(false);
        },
    }
    match &facts.process_name {
        None => Err(Query::ProcessName),
        Some(name) => Ok(!is_excluded_process(name)),
    }
}

/// A top-level window as the platform enumerates it: the raw value of its
/// handle, and what the platform says of it.
pub struct Candidate {
    pub hwnd: isize,
    pub facts: WindowFacts,
}

/// Whether `candidate` is a managed window: its handle is not the null handle
/// and the verdict on it is a clear yes. A candidate with a question left
/// without an answer is not.
pub open spec fn admitted(candidate: Candidate) -> bool {
    candidate.hwnd != 0 && managed(Window { hwnd: candidate.hwnd }, candidate.facts) == Ok::<
        bool,
        Query,
    >(true)
}

/// The managed windows among `candidates`, each once, in the order in which
/// they are first met.
pub open spec fn opened(candidates: Seq<Candidate>) -> Seq<Window>
    decreases candidates.len(),
{
    if candidates.len() == 0 {
        Seq::empty()
    } else {
        let earlier = opened(candidates.drop_last());
        let window = Window { hwnd: candidates.last().hwnd };
        if admitted(candidates.last()) && !earlier.contains(window) {
            earlier.push(window)
        } else {
            earlier
        }
    }
}

/// `opened` holds no window twice, and it holds exactly the windows of the
/// admitted candidates.
pub proof fn lemma_opened_members(candidates: Seq<Candidate>)
    ensures
        opened(candidates).no_duplicates(),
        forall|window: Window|
            opened(candidates).contains(window) <==> exists|k: int|
                0 <= k < candidates.len() && admitted(#[trigger] candidates[k]) && candidates[k].hwnd
                    == window.hwnd,
    decreases candidates.len(),
{
    if candidates.len() > 0 {
        let front = candidates.drop_last();
        let earlier = opened(front);
        let last = candidates.last();
        let newest = Window { hwnd: last.hwnd };
        lemma_opened_members(front);
        assert forall|window: Window| opened(candidates).contains(window) implies exists|k: int|
            0 <= k < candidates.len() && admitted(#[trigger] candidates[k]) && candidates[k].hwnd
                == window.hwnd by {
            if earlier.contains(window) {
                let k = choose|k: int|
                    0 <= k < front.len() && admitted(#[trigger] front[k]) && front[k].hwnd
                        == window.hwnd;
                assert(candidates[k] == front[k]);
            } else {
                let i = choose|i: int|
                    0 <= i < opened(candidates).len() && opened(candidates)[i] == window;
                assert(i == earlier.len());
                assert(admitted(candidates[candidates.len() - 1]));
            }
        }
        assert forall|window: Window|
            (exists|k: int|
                0 <= k < candidates.len() && admitted(#[trigger] candidates[k]) && candidates[k].hwnd
                    == window.hwnd) implies opened(candidates).contains(window) by {
            let k = choose|k: int|
                0 <= k < candidates.len() && admitted(#[trigger] candidates[k]) && candidates[k].hwnd
                    == window.hwnd;
            if k < front.len() {
                assert(front[k] == candidates[k]);
                assert(earlier.contains(window));
                let i = choose|i: int| 0 <= i < earlier.len() && earlier[i] == window;
                assert(opened(candidates)[i] == window);
            } else {
                assert(window == newest);
                if earlier.contains(window) {
                    let i = choose|i: int| 0 <= i < earlier.len() && earlier[i] == window;
                    assert(opened(candidates)[i] == window);
                } else {
                    assert(opened(candidates)[earlier.len() as int] == window);
                }
            }
        }
    }
}

/// The snapshot of the managed windows among `candidates`, which are all the
/// top-level windows that the platform enumerates.
///
/// A candidate with the null handle is passed over, and so is one on which a
/// question was left without an answer.
pub fn opened_windows(candidates: &Vec<Candidate>) -> (snapshot: WindowSnapshot)
    ensures
        snapshot.wf(),
        snapshot@ == opened(candidates@),
        forall|window: Window|
            snapshot.members().contains(window) <==> exists|k: int|
                0 <= k < candidates@.len() && admitted(#[trigger] candidates@[k])
                    && candidates@[k].hwnd == window.hwnd,
{
    let mut snapshot = WindowSnapshot::new();
    let mut index: usize = 0;
    proof {
        assert(candidates@.take(0).len() == 0);
    }
    while index < candidates.len()
        invariant
            index <= candidates@.len(),
            snapshot.wf(),
            snapshot@ == opened(candidates@.take(index as int)),
        decreases candidates@.len() - index,
    {
        let candidate = &candidates[index];
        proof {
            assert(candidates@.take(index + 1).drop_last() == candidates@.take(index as int));
        }
        match Window::from(candidate.hwnd) {
            Ok(window) => {
                match is_managed_window(window, &candidate.facts) {
                    Ok(true) => {
                        snapshot.insert(window);
                    },
                    _ => {},
                }
            },
            Err(_) => {},
        }
        index += 1;
    }
    proof {
        assert(candidates@.take(index as int) == candidates@);
        lemma_opened_members(candidates@);
    }
    snapshot
}

} // verus!
