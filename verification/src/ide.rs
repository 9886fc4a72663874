//! The IDE page: a list of IDE windows of which one is active; Ctrl+Shift+Tab
//! moves to the next one or asks for a new one at the end of the list.

use vstd::prelude::*;
use crate::seqs::{kept, lemma_kept_props, retain_kept};
use crate::state::{AppState, IdeInstance, ide_active_valid};
use crate::text::{file_name, spec_file_name};

verus! {

/// The list of IDE instances with the active index, as shown in the tabs.
#[derive(Debug)]
pub struct IdeState {
    pub list: Vec<IdeInstance>,
    pub active: usize,
}

/// What Ctrl+Shift+Tab does on the IDE page.
#[derive(Clone, Copy, Debug, PartialEq, Eq, Structural)]
pub enum IdeCycle {
    /// No further instance: the frontend is asked to open a new one.
    RequestNew,
    /// The instance with this index became active.
    Activated(usize),
}

/// The tab title of an IDE opened on `folder`: the folder's last path
/// component, or "VSCode".
pub open spec fn spec_ide_title(folder: Option<Seq<char>>) -> Seq<char> {
    match folder {
        Some(f) => match spec_file_name(f) {
            Some(n) => n,
            None => "VSCode"@,
        },
        None => "VSCode"@,
    }
}

/// The effect of Ctrl+Shift+Tab on the IDE active index.
pub open spec fn spec_cycle_ide(len: nat, active: usize) -> IdeCycle {
    if len == 0 || active >= len - 1 {
        IdeCycle::RequestNew
    } else {
        IdeCycle::Activated((active + 1) as usize)
    }
}

/// The active index after the IDE list shrank to `len` entries.
pub open spec fn clamp_ide_active(len: nat, active: usize) -> usize {
    if active >= len {
        if len == 0 { 0 } else { (len - 1) as usize }
    } else {
        active
    }
}

/// Copies of `s` are equal to it.
pub fn copy_ide_instance(s: &IdeInstance) -> (r: IdeInstance)
    ensures
        r == *s,
{
    let folder = match &s.folder {
        Some(f) => Some(f.clone()),
        None => None,
    };
    IdeInstance { hwnd: s.hwnd, folder, title: s.title.clone() }
}

/// The tab title of an IDE opened on `folder`.
pub fn ide_title(folder: &Option<String>) -> (t: String)
    ensures
        t@ == spec_ide_title(match folder {
            Some(f) => Some(f@),
            None => None,
        }),
{
    match folder {
        Some(f) => match file_name(f.as_str()) {
            Some(n) => n,
            None => String::from_str("VSCode"),
        },
        None => String::from_str("VSCode"),
    }
}

/// Cycling the IDE instances asks for a new one exactly when the last one
/// (or none) is active, and otherwise activates the next one, which is a
/// valid index.
pub proof fn lemma_cycle_ide_reaches_end(len: nat, active: usize)
    requires
        ide_active_valid(len, active),
        len <= usize::MAX,
    ensures
        spec_cycle_ide(len, active) is RequestNew <==> (len == 0 || active == len - 1),
        spec_cycle_ide(len, active) matches IdeCycle::Activated(a) ==> ide_active_valid(len, a)
            && a == active + 1,
{
}

impl AppState {
    /// Registers a newly embedded IDE window and makes it the active one;
    /// returns its index.
    pub fn add_ide_instance(&mut self, hwnd: usize, folder: Option<String>, title: String) -> (idx:
        usize)
        requires
            old(self).wf(),
            old(self).ide_instances@.len() < usize::MAX,
        ensures
            final(self).wf(),
            idx == old(self).ide_instances@.len(),
            *final(self) == (AppState {
                ide_instances: final(self).ide_instances,
                ide_active: idx,
                ..*old(self)
            }),
            final(self).ide_instances@ == old(self).ide_instances@.push(
                IdeInstance { hwnd, folder, title },
            ),
    {
        let idx = self.ide_instances.len();
        self.ide_instances.push(IdeInstance { hwnd, folder, title });
        self.ide_active = idx;
        idx
    }

    /// Makes the instance at `index` active if there is one; returns whether
    /// it did.
    pub fn set_ide_active(&mut self, index: usize) -> (changed: bool)
        requires
            old(self).wf(),
        ensures
            final(self).wf(),
            changed == (index < old(self).ide_instances@.len()),
            changed ==> *final(self) == (AppState { ide_active: index, ..*old(self) }),
            !changed ==> *final(self) == *old(self),
    {
        if index < self.ide_instances.len() {
            self.ide_active = index;
            true
        } else {
            false
        }
    }

    /// Ctrl+Shift+Tab on the IDE page: activate the next instance, or ask for
    /// a new one when the active instance is the last (or there is none).
    pub fn cycle_ide(&mut self) -> (c: IdeCycle)
        requires
            old(self).wf(),
        ensures
            final(self).wf(),
            c == spec_cycle_ide(old(self).ide_instances@.len(), old(self).ide_active),
            c matches IdeCycle::Activated(a) ==> *final(self) == (AppState {
                ide_active: a,
                ..*old(self)
            }),
            c is RequestNew ==> *final(self) == *old(self),
    {
        let len = self.ide_instances.len();
        if len == 0 || self.ide_active >= len - 1 {
            IdeCycle::RequestNew
        } else {
            self.ide_active = self.ide_active + 1;
            IdeCycle::Activated(self.ide_active)
        }
    }

    /// The window of the IDE instance at `index`, if any (the one a close
    /// request is sent to).
    pub fn ide_hwnd(&self, index: usize) -> (h: Option<usize>)
        ensures
            index < self.ide_instances@.len() ==> h == Some(self.ide_instances@[index as int].hwnd),
            index >= self.ide_instances@.len() ==> h is None,
    {
        if index < self.ide_instances.len() {
            Some(self.ide_instances[index].hwnd)
        } else {
            None
        }
    }

    /// Drops the IDE instances whose window is gone (`alive[i]` is false) and
    /// clamps the active index; returns whether the list changed.
    pub fn prune_ide(&mut self, alive: &Vec<bool>) -> (changed: bool)
        requires
            old(self).wf(),
            alive@.len() == old(self).ide_instances@.len(),
        ensures
            final(self).wf(),
            final(self).ide_instances@ == kept(old(self).ide_instances@, alive@),
            changed == (final(self).ide_instances@.len() != old(self).ide_instances@.len()),
            final(self).ide_active == if changed {
                clamp_ide_active(final(self).ide_instances@.len(), old(self).ide_active)
            } else {
                old(self).ide_active
            },
            *final(self) == (AppState {
                ide_instances: final(self).ide_instances,
                ide_active: final(self).ide_active,
                ..*old(self)
            }),
    {
        let before = self.ide_instances.len();
        proof {
            lemma_kept_props(self.ide_instances@, alive@);
        }
        retain_kept(&mut self.ide_instances, alive);
        let after = self.ide_instances.len();
        if after != before {
            if self.ide_active >= after {
                self.ide_active = if after == 0 { 0 } else { after - 1 };
            }
            true
        } else {
            false
        }
    }

    /// The IDE list and the active index.
    pub fn ide_list(&self) -> (s: IdeState)
        ensures
            s.list@ == self.ide_instances@,
            s.active == self.ide_active,
    {
        let mut list: Vec<IdeInstance> = Vec::new();
        let mut i: usize = 0;
        while i < self.ide_instances.len()
            invariant
                i <= self.ide_instances@.len(),
                list@ == self.ide_instances@.take(i as int),
            decreases self.ide_instances@.len() - i,
        {
            list.push(copy_ide_instance(&self.ide_instances[i]));
            i = i + 1;
            proof {
                assert(list@ =~= self.ide_instances@.take(i as int));
            }
        }
        proof {
            assert(self.ide_instances@.take(i as int) =~= self.ide_instances@);
        }
        IdeState { list, active: self.ide_active }
    }
}

} // verus!
