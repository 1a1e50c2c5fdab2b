//! State of the terminal view: which tab and which plot are shown, and how
//! keys move between them. Drawing is left to the caller.
use vstd::prelude::*;

use crate::monitor::TargetStats;

verus! {

/// Which latencies the charts show.
#[derive(Clone, Copy, Debug, PartialEq, Eq, Structural)]
pub enum PlotView {
    AllTargets,
    PingOnly,
    SshOnly,
}

/// Tab 0 shows all targets; tab `i + 1` shows target `i` alone.
#[derive(Clone, Copy, Debug, PartialEq, Eq, Structural)]
pub enum TabMode {
    AllTargets,
    Individual(usize),
}

/// A key press, as far as the view cares.
#[derive(Clone, Copy, Debug, PartialEq, Eq, Structural)]
pub enum KeyInput {
    Quit,
    NextTab,
    PreviousTab,
    CyclePlot,
    Other,
}

pub struct App {
    pub should_quit: bool,
    pub current_tab: usize,
    pub current_plot_view: PlotView,
    pub tab_mode: TabMode,
}

pub open spec fn tab_mode_of(tab: usize) -> TabMode {
    if tab == 0 {
        TabMode::AllTargets
    } else {
        TabMode::Individual((tab - 1) as usize)
    }
}

pub open spec fn plot_after(v: PlotView, has_ssh: bool) -> PlotView {
    match v {
        PlotView::AllTargets => PlotView::PingOnly,
        PlotView::PingOnly => if has_ssh {
            PlotView::SshOnly
        } else {
            PlotView::AllTargets
        },
        PlotView::SshOnly => PlotView::AllTargets,
    }
}

/// Whether the shown tab has SSH figures to plot: on the overview, whether
/// any target has an SSH port; on a target's tab, whether that one has.
pub open spec fn ssh_shown(mode: TabMode, targets: Seq<TargetStats>) -> bool {
    match mode {
        TabMode::AllTargets => exists|i: int| 0 <= i < targets.len() && (#[trigger] targets[i]).target.ssh_port is Some,
        TabMode::Individual(idx) => idx < targets.len() && targets[idx as int].target.ssh_port is Some,
    }
}

impl App {
    pub fn new() -> (r: App)
        ensures
            !r.should_quit,
            r.current_tab == 0,
            r.current_plot_view == PlotView::AllTargets,
            r.tab_mode == TabMode::AllTargets,
    {
        App {
            should_quit: false,
            current_tab: 0,
            current_plot_view: PlotView::AllTargets,
            tab_mode: TabMode::AllTargets,
        }
    }

    /// Moves to the next of the `max_tabs + 1` tabs, wrapping to the overview.
    pub fn next_tab(&mut self, max_tabs: usize)
        ensures
            final(self).current_tab == (old(self).current_tab + 1) % (max_tabs + 1),
            final(self).tab_mode == tab_mode_of(final(self).current_tab),
            final(self).should_quit == old(self).should_quit,
            final(self).current_plot_view == old(self).current_plot_view,
    {
        let total_tabs: u128 = max_tabs as u128 + 1;
        let next: u128 = (self.current_tab as u128 + 1) % total_tabs;
        self.current_tab = next as usize;
        self.update_tab_mode();
    }

    /// Moves to the previous of the `max_tabs + 1` tabs, wrapping to the last.
    pub fn previous_tab(&mut self, max_tabs: usize)
        ensures
            final(self).current_tab == if old(self).current_tab > 0 {
                (old(self).current_tab - 1) as usize
            } else {
                max_tabs
            },
            final(self).tab_mode == tab_mode_of(final(self).current_tab),
            final(self).should_quit == old(self).should_quit,
            final(self).current_plot_view == old(self).current_plot_view,
    {
        if self.current_tab > 0 {
            self.current_tab = self.current_tab - 1;
        } else {
            self.current_tab = max_tabs;
        }
        self.update_tab_mode();
    }

    fn update_tab_mode(&mut self)
        ensures
            final(self).tab_mode == tab_mode_of(old(self).current_tab),
            final(self).current_tab == old(self).current_tab,
            final(self).should_quit == old(self).should_quit,
            final(self).current_plot_view == old(self).current_plot_view,
    {
        if self.current_tab == 0 {
            self.tab_mode = TabMode::AllTargets;
        } else {
            self.tab_mode = TabMode::Individual(self.current_tab - 1);
        }
    }

    /// Cycles the plot: all, then ping only, then SSH only when there is SSH
    /// data to show, then back to all.
    pub fn next_plot_view(&mut self, has_ssh: bool)
        ensures
            final(self).current_plot_view == plot_after(old(self).current_plot_view, has_ssh),
            final(self).current_tab == old(self).current_tab,
            final(self).tab_mode == old(self).tab_mode,
            final(self).should_quit == old(self).should_quit,
    {
        self.current_plot_view = match self.current_plot_view {
            PlotView::AllTargets => PlotView::PingOnly,
            PlotView::PingOnly => {
                if has_ssh {
                    PlotView::SshOnly
                } else {
                    PlotView::AllTargets
                }
            },
            PlotView::SshOnly => PlotView::AllTargets,
        };
    }

    /// Whether the shown tab has SSH figures to plot.
    pub fn ssh_view_available(&self, targets: &[TargetStats]) -> (r: bool)
        ensures
            r == ssh_shown(self.tab_mode, targets@),
    {
        match self.tab_mode {
            TabMode::AllTargets => {
                let mut i: usize = 0;
                while i < targets.len()
                    invariant
                        i <= targets@.len(),
                        self.tab_mode == TabMode::AllTargets,
                        forall|j: int| 0 <= j < i ==> (#[trigger] targets@[j]).target.ssh_port is None,
                    decreases targets@.len() - i,
                {
                    if targets[i].target.ssh_port.is_some() {
                        assert(targets@[i as int].target.ssh_port is Some);
                        return true;
                    }
                    i = i + 1;
                }
                false
            },
            TabMode::Individual(idx) => idx < targets.len() && targets[idx].target.ssh_port.is_some(),
        }
    }

    /// Reacts to a key with `targets` on display: quit, move between tabs
    /// (one per target after the overview), or cycle the plot.
    pub fn handle_key(&mut self, key: KeyInput, targets: &[TargetStats])
        ensures
            key == KeyInput::Quit ==> *final(self) == (App { should_quit: true, ..*old(self) }),
            key == KeyInput::NextTab ==> final(self).current_tab == (old(self).current_tab + 1) % (
            targets@.len() as int + 1) && final(self).tab_mode == tab_mode_of(final(self).current_tab)
                && final(self).should_quit == old(self).should_quit
                && final(self).current_plot_view == old(self).current_plot_view,
            key == KeyInput::PreviousTab ==> final(self).current_tab == (if old(self).current_tab
                > 0 {
                (old(self).current_tab - 1) as int
            } else {
                targets@.len() as int
            }) && final(self).tab_mode == tab_mode_of(final(self).current_tab)
                && final(self).should_quit == old(self).should_quit
                && final(self).current_plot_view == old(self).current_plot_view,
            key == KeyInput::CyclePlot ==> *final(self) == (App {
                current_plot_view: plot_after(
                    old(self).current_plot_view,
                    ssh_shown(old(self).tab_mode, targets@),
                ),
                ..*old(self)
            }),
            key == KeyInput::Other ==> *final(self) == *old(self),
    {
        match key {
            KeyInput::Quit => {
                self.should_quit = true;
            },
            KeyInput::NextTab => {
                self.next_tab(targets.len());
            },
            KeyInput::PreviousTab => {
                self.previous_tab(targets.len());
            },
            KeyInput::CyclePlot => {
                let has_ssh = self.ssh_view_available(targets);
                self.next_plot_view(has_ssh);
            },
            KeyInput::Other => {},
        }
    }
}

} // verus!
