//! Navigation and refresh state, independent of terminal input and output.

use super::history::{Counters, History};
use crate::cli_output::stats::StatsView;
use crate::qwen4_exp::gpu::activity::ExpertCounters;
use crate::text;
use crate::text::{clean, decimal};
use vstd::prelude::*;
use vstd::string::*;

verus! {

/// The nanoseconds between two refreshes.
pub const REFRESH_NS: u64 = 1_000_000_000;

/// The entries of a page.
pub const PAGE_SIZE: usize = 8;

#[derive(Debug, Clone, Copy, PartialEq, Eq, Structural)]
pub enum Tab {
    Summary,
    Layers,
    Experts,
}

#[derive(Debug, Clone, Copy, PartialEq, Eq, Structural)]
pub enum Pane {
    History,
    Rows,
    Detail,
}

impl Pane {
    /// The pane that comes next; only the overview has a history.
    pub open spec fn after(self, overview: bool) -> Pane {
        match self {
            Pane::History => Pane::Rows,
            Pane::Rows => Pane::Detail,
            Pane::Detail => if overview {
                Pane::History
            } else {
                Pane::Rows
            },
        }
    }

    pub fn next(self, overview: bool) -> (r: Pane)
        ensures
            r == self.after(overview),
    {
        match self {
            Pane::History => Pane::Rows,
            Pane::Rows => Pane::Detail,
            Pane::Detail => if overview {
                Pane::History
            } else {
                Pane::Rows
            },
        }
    }
}

/// What the dashboard asks the server for. The generation tells replies to old requests
/// apart.
#[derive(Debug, Clone, Copy, PartialEq, Eq, Structural)]
pub struct Request {
    pub generation: u64,
    pub tab: Tab,
    pub offset: usize,
    pub layer: usize,
}

/// A place to come back to.
#[derive(Debug)]
pub struct Location {
    pub request: Request,
    pub selected: Option<usize>,
    pub pages: Vec<usize>,
}

/// A key that was pressed.
#[derive(Debug, Clone, Copy, PartialEq, Eq, Structural)]
pub enum Key {
    Esc,
    Tab,
    Enter,
    Up,
    Down,
    PageUp,
    PageDown,
    Home,
    End,
    Char(char),
    Other,
}

/// What happens to the scrolled details.
#[derive(Debug, Clone, Copy, PartialEq, Eq, Structural)]
pub enum Scroll {
    Stay,
    Up,
    Down,
    PageUp,
    PageDown,
    Top,
    Bottom,
    Reset,
}

/// What follows from a key: whether to quit, and what happens to the scrolled details.
#[derive(Debug, Clone, Copy, PartialEq, Eq, Structural)]
pub struct Outcome {
    pub quit: bool,
    pub scroll: Scroll,
}

/// What a reply shows: its rows, how many layers there are, and what the charts are drawn
/// from.
#[derive(Debug)]
pub struct Snapshot {
    pub rows: StatsView,
    pub layer_count: usize,
    pub counters: Option<Counters>,
}

impl Snapshot {
    /// Where the next page begins, where there is one.
    pub fn next_offset(&self) -> (r: Option<usize>)
        ensures
            r == self.rows.following(),
    {
        self.rows.next_offset()
    }

    /// How many rows there are.
    pub fn len(&self) -> (r: usize)
        ensures
            r == self.rows.entries().len(),
    {
        self.rows.len()
    }

    /// A row, where there is one: what it is called by, and its counters.
    pub fn row(&self, index: usize) -> (r: Option<(usize, ExpertCounters)>)
        ensures
            r == if index < self.rows.entries().len() {
                Some(self.rows.entries()[index as int])
            } else {
                None
            },
    {
        self.rows.row(index)
    }
}

/// Where the dashboard is and what it shows.
#[derive(Debug)]
pub struct State {
    pub request: Request,
    pub snapshot: Option<Snapshot>,
    pub history: History,
    pub error: Option<String>,
    pub updated: Option<u64>,
    /// Whether the drawn details are still those of the selected row.
    pub canvas: bool,
    pub selected: Option<usize>,
    pub pane: Pane,
    pub expanded: bool,
    pub help: bool,
    pub next_offset: Option<usize>,
    pub layer_count: Option<usize>,
    pub previous: Vec<usize>,
    pub back: Option<Location>,
    pub in_flight: bool,
    pub refresh_at: u64,
}

/// A place to come back to, as values.
pub struct Spot {
    pub request: Request,
    pub selected: Option<usize>,
    pub pages: Seq<usize>,
}

/// Where the dashboard is and what it shows, as values.
pub struct Dash {
    pub request: Request,
    pub rows: Option<Seq<usize>>,
    pub error: Option<Seq<char>>,
    pub updated: Option<u64>,
    pub canvas: bool,
    pub selected: Option<usize>,
    pub pane: Pane,
    pub expanded: bool,
    pub help: bool,
    pub next_offset: Option<usize>,
    pub layer_count: Option<usize>,
    pub previous: Seq<usize>,
    pub back: Option<Spot>,
    pub in_flight: bool,
    pub refresh_at: u64,
}

impl View for State {
    type V = Dash;

    open spec fn view(&self) -> Dash {
        Dash {
            request: self.request,
            rows: match self.snapshot {
                Some(snapshot) => Some(snapshot.rows.ids()),
                None => None,
            },
            error: match self.error {
                Some(e) => Some(e@),
                None => None,
            },
            updated: self.updated,
            canvas: self.canvas,
            selected: self.selected,
            pane: self.pane,
            expanded: self.expanded,
            help: self.help,
            next_offset: self.next_offset,
            layer_count: self.layer_count,
            previous: self.previous@,
            back: match self.back {
                Some(l) => Some(Spot { request: l.request, selected: l.selected, pages: l.pages@ }),
                None => None,
            },
            in_flight: self.in_flight,
            refresh_at: self.refresh_at,
        }
    }
}

impl Dash {
    /// The rows that are shown.
    pub open spec fn row_count(self) -> int {
        match self.rows {
            Some(rows) => rows.len() as int,
            None => 0,
        }
    }

    /// The dashboard after its request changed: nothing shows, and a refresh is due.
    pub open spec fn moved(self, request: Request, now: u64) -> Dash {
        Dash {
            request: Request { generation: (self.request.generation + 1) as u64, ..request },
            rows: None,
            canvas: false,
            updated: None,
            error: None,
            next_offset: None,
            selected: None,
            refresh_at: now,
            ..self
        }
    }

    /// Goes to a tab.
    pub open spec fn to_tab(self, tab: Tab, now: u64) -> Dash {
        if tab == self.request.tab {
            self
        } else {
            Dash { pane: Pane::Rows, expanded: false, back: None, previous: Seq::empty(), ..self }.moved(
                Request { tab, offset: 0, ..self.request },
                now,
            )
        }
    }

    /// Goes to the next page, where there is one.
    pub open spec fn to_next_page(self, now: u64) -> Dash {
        match self.next_offset {
            Some(offset) => Dash { previous: self.previous.push(self.request.offset), ..self }.moved(
                Request { offset, ..self.request },
                now,
            ),
            None => self,
        }
    }

    /// Goes back to the page before, where there is one.
    pub open spec fn to_previous_page(self, now: u64) -> Dash {
        if self.previous.len() == 0 {
            self
        } else {
            Dash { previous: self.previous.drop_last(), ..self }.moved(
                Request { offset: self.previous.last(), ..self.request },
                now,
            )
        }
    }

    /// The layer beside the one that is shown.
    pub open spec fn layer_beside(self, forward: bool) -> usize {
        let last: int = match self.layer_count {
            Some(n) => if n > 0 {
                n - 1
            } else {
                0
            },
            None => 0,
        };
        if forward {
            if self.request.layer + 1 < last {
                (self.request.layer + 1) as usize
            } else {
                last as usize
            }
        } else if self.request.layer > 0 {
            (self.request.layer - 1) as usize
        } else {
            0
        }
    }

    /// Goes to the experts of the layer beside.
    pub open spec fn to_layer(self, forward: bool, now: u64) -> Dash {
        let layer = self.layer_beside(forward);
        if self.request.tab != Tab::Experts || layer == self.request.layer {
            self
        } else {
            Dash { previous: Seq::empty(), ..self }.moved(Request { layer, offset: 0, ..self.request }, now)
        }
    }

    /// Looks into what is selected: the experts of a layer, or the details.
    pub open spec fn inspected(self, now: u64) -> Dash {
        if self.request.tab == Tab::Experts {
            Dash { pane: Pane::Detail, expanded: true, ..self }
        } else if self.pane != Pane::Rows {
            Dash { expanded: true, ..self }
        } else {
            match (self.rows, self.selected) {
                (Some(rows), Some(i)) => if i < rows.len() {
                    Dash {
                        back: Some(Spot { request: self.request, selected: self.selected, pages: self.previous }),
                        previous: Seq::empty(),
                        expanded: false,
                        ..self
                    }.moved(Request { tab: Tab::Experts, layer: rows[i as int], offset: 0, ..self.request }, now)
                } else {
                    self
                },
                _ => self,
            }
        }
    }

    /// Whether there is nothing to leave but the dashboard.
    pub open spec fn at_top(self) -> bool {
        !self.expanded && self.back is None
    }

    /// Leaves an expanded pane, or what was looked into.
    pub open spec fn escaped(self, now: u64) -> Dash {
        if self.expanded {
            Dash { expanded: false, ..self }
        } else {
            match self.back {
                Some(spot) => Dash {
                    selected: spot.selected,
                    ..Dash { back: None, previous: spot.pages, ..self }.moved(spot.request, now)
                },
                None => self,
            }
        }
    }

    /// The row that a key selects; nothing where the key selects none.
    pub open spec fn row_for(self, key: Key) -> Option<int> {
        let len = self.row_count();
        let selected: int = match self.selected {
            Some(i) => i as int,
            None => 0,
        };
        if len == 0 {
            None
        } else if key == Key::Up || key == Key::Char('k') {
            Some(
                if selected > 0 {
                    selected - 1
                } else {
                    0
                },
            )
        } else if key == Key::Down || key == Key::Char('j') {
            Some(
                if selected + 1 < len - 1 {
                    selected + 1
                } else {
                    len - 1
                },
            )
        } else if key == Key::Home || key == Key::PageUp {
            Some(0)
        } else if key == Key::End || key == Key::PageDown {
            Some(len - 1)
        } else {
            None
        }
    }

    /// Selects a row.
    pub open spec fn selecting(self, key: Key) -> Dash {
        let selected: int = match self.selected {
            Some(i) => i as int,
            None => 0,
        };
        match self.row_for(key) {
            Some(next) => if next == selected {
                self
            } else {
                Dash { selected: Some(next as usize), canvas: false, ..self }
            },
            None => self,
        }
    }

    /// What a key does to the details.
    pub open spec fn scrolls(key: Key) -> Scroll {
        if key == Key::Up || key == Key::Char('k') {
            Scroll::Up
        } else if key == Key::Down || key == Key::Char('j') {
            Scroll::Down
        } else if key == Key::PageUp {
            Scroll::PageUp
        } else if key == Key::PageDown {
            Scroll::PageDown
        } else if key == Key::Home {
            Scroll::Top
        } else if key == Key::End {
            Scroll::Bottom
        } else {
            Scroll::Stay
        }
    }

    /// Where a key that means a command leads.
    pub open spec fn navigated(self, key: Key, now: u64) -> Dash {
        match key {
            Key::Esc => self.escaped(now),
            Key::Tab => Dash { pane: self.pane.after(self.request.tab == Tab::Summary), ..self },
            Key::Enter => self.inspected(now),
            Key::Char('1') => self.to_tab(Tab::Summary, now),
            Key::Char('2') => self.to_tab(Tab::Layers, now),
            Key::Char('3') => self.to_tab(Tab::Experts, now),
            Key::Char('f') => Dash { expanded: !self.expanded, ..self },
            Key::Char('?') => Dash { help: true, ..self },
            Key::Char('n') => self.to_next_page(now),
            Key::Char('p') => self.to_previous_page(now),
            Key::Char('[') => self.to_layer(false, now),
            Key::Char(']') => self.to_layer(true, now),
            Key::Char('r') => Dash { refresh_at: now, ..self },
            _ => if self.pane == Pane::Rows {
                self.selecting(key)
            } else {
                self
            },
        }
    }

    /// Whether a key is a command, wherever the focus is.
    pub open spec fn commands(key: Key) -> bool {
        match key {
            Key::Esc => true,
            Key::Tab => true,
            Key::Enter => true,
            Key::Char(c) => c == '1' || c == '2' || c == '3' || c == 'f' || c == '?' || c == 'n' || c == 'p' || c == '['
                || c == ']' || c == 'r',
            _ => false,
        }
    }

    /// Whether a key ends the dashboard.
    pub open spec fn quits(self, key: Key, control: bool) -> bool {
        ||| key == Key::Char('c') && control
        ||| key == Key::Char('q')
        ||| !self.help && key == Key::Esc && !self.expanded && self.back is None
    }

    /// Where a key leads. Any key closes the help.
    pub open spec fn pressed(self, key: Key, control: bool, now: u64) -> Dash {
        if (key == Key::Char('c') && control) || key == Key::Char('q') {
            self
        } else if self.help {
            Dash { help: false, ..self }
        } else {
            self.navigated(key, now)
        }
    }

    /// What a key does to the scrolled details: a new request or another row starts them
    /// over.
    pub open spec fn scrolled(self, key: Key, control: bool, now: u64) -> Scroll {
        let after = self.pressed(key, control, now);
        if after.request.generation != self.request.generation {
            Scroll::Reset
        } else if (key == Key::Char('c') && control) || key == Key::Char('q') || self.help || Dash::commands(key) {
            Scroll::Stay
        } else if self.pane == Pane::Rows {
            if after.selected != self.selected {
                Scroll::Reset
            } else {
                Scroll::Stay
            }
        } else if self.pane == Pane::Detail {
            Dash::scrolls(key)
        } else {
            Scroll::Stay
        }
    }

    /// The dashboard after a reply came at a moment.
    pub open spec fn accepted(self, request: Request, result: Result<(Seq<usize>, Option<usize>, usize), Seq<char>>, now: u64) -> Dash {
        if request != self.request {
            self
        } else {
            let later = Dash { refresh_at: (now + REFRESH_NS) as u64, ..self };
            match result {
                Ok((rows, next_offset, layer_count)) => Dash {
                    next_offset,
                    layer_count: Some(layer_count),
                    selected: if rows.len() > 0 {
                        Some(
                            match self.selected {
                                Some(i) => if i < rows.len() {
                                    i
                                } else {
                                    (rows.len() - 1) as usize
                                },
                                None => 0,
                            },
                        )
                    } else {
                        None
                    },
                    rows: Some(rows),
                    updated: Some(now),
                    error: None,
                    canvas: false,
                    ..later
                },
                Err(e) => Dash { error: Some(e), ..later },
            }
        }
    }
}

/// What a reply's result holds.
pub open spec fn reply_of(result: Result<Snapshot, String>) -> Result<(Seq<usize>, Option<usize>, usize), Seq<char>> {
    match result {
        Ok(s) => Ok((s.rows.ids(), s.rows.following(), s.layer_count)),
        Err(e) => Err(e@),
    }
}

/// Whether the history stays as it was, and what is shown too until another thing is asked
/// for.
pub open spec fn keeps(before: State, after: State) -> bool {
    &&& after.history == before.history
    &&& after.snapshot == if after.request.generation == before.request.generation {
        before.snapshot
    } else {
        None
    }
}

impl State {
    pub fn new(now: u64) -> (r: State)
        ensures
            r@ == (Dash {
                request: Request { generation: 0, tab: Tab::Summary, offset: 0, layer: 0 },
                rows: None,
                error: None,
                updated: None,
                canvas: false,
                selected: None,
                pane: Pane::Rows,
                expanded: false,
                help: false,
                next_offset: None,
                layer_count: None,
                previous: Seq::empty(),
                back: None,
                in_flight: false,
                refresh_at: now,
            }),
            r.snapshot is None,
            r.history.samples@.len() == 0,
            r.history.previous is None,
            !r.history.disconnected,
    {
        let r = State {
            request: Request { generation: 0, tab: Tab::Summary, offset: 0, layer: 0 },
            snapshot: None,
            history: History::new(),
            error: None,
            updated: None,
            canvas: false,
            selected: None,
            pane: Pane::Rows,
            expanded: false,
            help: false,
            next_offset: None,
            layer_count: None,
            previous: Vec::new(),
            back: None,
            in_flight: false,
            refresh_at: now,
        };
        assert(r@.previous =~= Seq::<usize>::empty());
        r
    }

    /// Whether the worker is to be asked now; then it is.
    pub fn ask(&mut self, now: u64) -> (r: Option<Request>)
        ensures
            match r {
                Some(request) => !old(self)@.in_flight && now >= old(self)@.refresh_at && request == old(self)@.request
                    && final(self)@ == (Dash { in_flight: true, ..old(self)@ }),
                None => (old(self)@.in_flight || now < old(self)@.refresh_at) && final(self)@ == old(self)@,
            },
            keeps(*old(self), *final(self)),
    {
        if self.in_flight || now < self.refresh_at {
            return None;
        }
        self.in_flight = true;
        Some(self.request)
    }

    /// Takes the worker's reply; one to an earlier request is dropped.
    pub fn accept(&mut self, request: Request, result: Result<Snapshot, String>, now: u64)
        requires
            now + REFRESH_NS <= u64::MAX,
            result matches Ok(s) ==> (s.counters matches Some(c) ==> c.stage + c.gap <= u128::MAX),
        ensures
            final(self)@ == (Dash { in_flight: false, ..old(self)@ }).accepted(request, reply_of(result), now),
            final(self).snapshot == if request != old(self).request || result is Err {
                old(self).snapshot
            } else {
                Some(result->Ok_0)
            },
            if request != old(self).request {
                final(self).history == old(self).history
            } else {
                match result {
                    Ok(s) => match s.counters {
                        Some(c) => {
                            &&& (final(self).history.samples@, final(self).history.disconnected) == old(
                                self,
                            ).history.after(c)
                            &&& final(self).history.previous == Some(old(self).history.base_after(c))
                        },
                        None => final(self).history == (History { disconnected: true, ..old(self).history }),
                    },
                    Err(_) => final(self).history == (History { disconnected: true, ..old(self).history }),
                }
            },
    {
        self.in_flight = false;
        if request != self.request {
            return ;
        }
        self.refresh_at = now + REFRESH_NS;
        match result {
            Ok(snapshot) => {
                self.history.observe(snapshot.counters);
                self.next_offset = snapshot.next_offset();
                self.layer_count = Some(snapshot.layer_count);
                let len: usize = snapshot.len();
                self.selected = if len > 0 {
                    let selected: usize = match self.selected {
                        Some(i) => i,
                        None => 0,
                    };
                    Some(
                        if selected < len {
                            selected
                        } else {
                            len - 1
                        },
                    )
                } else {
                    None
                };
                self.snapshot = Some(snapshot);
                self.updated = Some(now);
                self.error = None;
                self.canvas = false;
            },
            Err(error) => {
                self.error = Some(error);
                self.history.disconnect();
            },
        }
    }

    fn changed(&mut self, request: Request, now: u64)
        requires
            old(self).request.generation < u64::MAX,
        ensures
            final(self)@ == old(self)@.moved(request, now),
            keeps(*old(self), *final(self)),
    {
        let generation: u64 = self.request.generation + 1;
        self.request = Request { generation, tab: request.tab, offset: request.offset, layer: request.layer };
        self.snapshot = None;
        self.canvas = false;
        self.updated = None;
        self.error = None;
        self.next_offset = None;
        self.selected = None;
        self.refresh_at = now;
    }

    fn tab(&mut self, tab: Tab, now: u64)
        requires
            old(self).request.generation < u64::MAX,
        ensures
            final(self)@ == old(self)@.to_tab(tab, now),
            keeps(*old(self), *final(self)),
    {
        if tab == self.request.tab {
            return ;
        }
        self.pane = Pane::Rows;
        self.expanded = false;
        self.back = None;
        self.previous = Vec::new();
        assert(self.previous@ =~= Seq::<usize>::empty());
        let request = Request { generation: self.request.generation, tab, offset: 0, layer: self.request.layer };
        self.changed(request, now);
    }

    fn next_page(&mut self, now: u64)
        requires
            old(self).request.generation < u64::MAX,
        ensures
            final(self)@ == old(self)@.to_next_page(now),
            keeps(*old(self), *final(self)),
    {
        let offset: usize = match self.next_offset {
            Some(offset) => offset,
            None => return ,
        };
        self.previous.push(self.request.offset);
        let request = Request {
            generation: self.request.generation,
            tab: self.request.tab,
            offset,
            layer: self.request.layer,
        };
        self.changed(request, now);
    }

    fn previous_page(&mut self, now: u64)
        requires
            old(self).request.generation < u64::MAX,
        ensures
            final(self)@ == old(self)@.to_previous_page(now),
            keeps(*old(self), *final(self)),
    {
        let ghost before = self.previous@;
        let offset: usize = match self.previous.pop() {
            Some(offset) => offset,
            None => return ,
        };
        assert(self.previous@ =~= before.drop_last());
        let request = Request {
            generation: self.request.generation,
            tab: self.request.tab,
            offset,
            layer: self.request.layer,
        };
        self.changed(request, now);
    }

    fn layer(&mut self, forward: bool, now: u64)
        requires
            old(self).request.generation < u64::MAX,
        ensures
            final(self)@ == old(self)@.to_layer(forward, now),
            keeps(*old(self), *final(self)),
    {
        if self.request.tab != Tab::Experts {
            return ;
        }
        let last: usize = match self.layer_count {
            Some(n) => if n > 0 {
                n - 1
            } else {
                0
            },
            None => 0,
        };
        let current: usize = self.request.layer;
        let layer: usize = if forward {
            if current < last && current + 1 < last {
                current + 1
            } else {
                last
            }
        } else if current > 0 {
            current - 1
        } else {
            0
        };
        if layer == current {
            return ;
        }
        self.previous = Vec::new();
        assert(self.previous@ =~= Seq::<usize>::empty());
        let request = Request { generation: self.request.generation, tab: self.request.tab, offset: 0, layer };
        self.changed(request, now);
    }

    /// Looks into what is selected.
    pub fn inspect(&mut self, now: u64)
        requires
            old(self).request.generation < u64::MAX,
        ensures
            final(self)@ == old(self)@.inspected(now),
            keeps(*old(self), *final(self)),
    {
        if self.request.tab == Tab::Experts {
            self.pane = Pane::Detail;
            self.expanded = true;
            return ;
        }
        if self.pane != Pane::Rows {
            self.expanded = true;
            return ;
        }
        let layer: usize = match (&self.snapshot, self.selected) {
            (Some(snapshot), Some(i)) => match snapshot.row(i) {
                Some((id, _)) => id,
                None => return ,
            },
            _ => return ,
        };
        let mut pages: Vec<usize> = Vec::new();
        std::mem::swap(&mut pages, &mut self.previous);
        self.back = Some(Location { request: self.request, selected: self.selected, pages });
        assert(self.previous@ =~= Seq::<usize>::empty());
        self.expanded = false;
        let request = Request { generation: self.request.generation, tab: Tab::Experts, offset: 0, layer };
        self.changed(request, now);
    }

    /// Leaves what was looked into; true where there is nothing left to leave.
    pub fn escape(&mut self, now: u64) -> (r: bool)
        requires
            old(self).request.generation < u64::MAX,
        ensures
            final(self)@ == old(self)@.escaped(now),
            r == old(self)@.at_top(),
            keeps(*old(self), *final(self)),
    {
        if self.expanded {
            self.expanded = false;
            return false;
        }
        let mut back: Option<Location> = None;
        std::mem::swap(&mut back, &mut self.back);
        match back {
            Some(location) => {
                self.previous = location.pages;
                self.changed(location.request, now);
                self.selected = location.selected;
                false
            },
            None => true,
        }
    }

    fn select_row(&mut self, key: Key)
        ensures
            final(self)@ == old(self)@.selecting(key),
            keeps(*old(self), *final(self)),
    {
        let len: usize = match &self.snapshot {
            Some(snapshot) => snapshot.len(),
            None => 0,
        };
        if len == 0 {
            return ;
        }
        let selected: usize = match self.selected {
            Some(i) => i,
            None => 0,
        };
        let next: usize = match key {
            Key::Up => if selected > 0 {
                selected - 1
            } else {
                0
            },
            Key::Char('k') => if selected > 0 {
                selected - 1
            } else {
                0
            },
            Key::Down => if selected < len - 1 && selected + 1 < len - 1 {
                selected + 1
            } else {
                len - 1
            },
            Key::Char('j') => if selected < len - 1 && selected + 1 < len - 1 {
                selected + 1
            } else {
                len - 1
            },
            Key::Home => 0,
            Key::PageUp => 0,
            Key::End => len - 1,
            Key::PageDown => len - 1,
            _ => return ,
        };
        if selected == next {
            return ;
        }
        self.selected = Some(next);
        self.canvas = false;
    }

    /// Follows a key.
    pub fn key(&mut self, key: Key, control: bool, now: u64) -> (r: Outcome)
        requires
            old(self).request.generation < u64::MAX,
        ensures
            final(self)@ == old(self)@.pressed(key, control, now),
            r.quit == old(self)@.quits(key, control),
            r.scroll == old(self)@.scrolled(key, control, now),
            keeps(*old(self), *final(self)),
    {
        let stay = Outcome { quit: false, scroll: Scroll::Stay };
        if (key == Key::Char('c') && control) || key == Key::Char('q') {
            return Outcome { quit: true, scroll: Scroll::Stay };
        }
        if self.help {
            self.help = false;
            return stay;
        }
        let generation: u64 = self.request.generation;
        let selected: Option<usize> = self.selected;
        let pane: Pane = self.pane;
        let mut quit: bool = false;
        let mut scroll: Scroll = Scroll::Stay;
        match key {
            Key::Esc => {
                quit = self.escape(now);
            },
            Key::Tab => {
                self.pane = self.pane.next(self.request.tab == Tab::Summary);
            },
            Key::Enter => self.inspect(now),
            Key::Char('1') => self.tab(Tab::Summary, now),
            Key::Char('2') => self.tab(Tab::Layers, now),
            Key::Char('3') => self.tab(Tab::Experts, now),
            Key::Char('f') => {
                self.expanded = !self.expanded;
            },
            Key::Char('?') => {
                self.help = true;
            },
            Key::Char('n') => self.next_page(now),
            Key::Char('p') => self.previous_page(now),
            Key::Char('[') => self.layer(false, now),
            Key::Char(']') => self.layer(true, now),
            Key::Char('r') => {
                self.refresh_at = now;
            },
            _ => {
                if pane == Pane::Rows {
                    self.select_row(key);
                    let moved: bool = match (self.selected, selected) {
                        (Some(a), Some(b)) => a != b,
                        (None, None) => false,
                        _ => true,
                    };
                    if moved {
                        scroll = Scroll::Reset;
                    }
                } else if pane == Pane::Detail {
                    scroll = match key {
                        Key::Up => Scroll::Up,
                        Key::Char('k') => Scroll::Up,
                        Key::Down => Scroll::Down,
                        Key::Char('j') => Scroll::Down,
                        Key::PageUp => Scroll::PageUp,
                        Key::PageDown => Scroll::PageDown,
                        Key::Home => Scroll::Top,
                        Key::End => Scroll::Bottom,
                        _ => Scroll::Stay,
                    };
                }
            },
        }
        if self.request.generation != generation {
            scroll = Scroll::Reset;
        }
        Outcome { quit, scroll }
    }

    /// What the line below the tabs says.
    pub open spec fn status_text(self, now: u64, socket: Seq<char>) -> Seq<char> {
        match self.error {
            Some(e) => "Unavailable: "@ + text::cleaned(e@),
            None => match self.updated {
                None => "Connecting..."@,
                Some(updated) => (if self.request.tab == Tab::Experts {
                    "layer "@ + text::decimal_of(self.request.layer as nat) + " | "@
                } else {
                    Seq::<char>::empty()
                }) + "updated "@ + text::decimal_of(((now - updated) / 1_000_000_000) as nat) + "s ago | "@
                    + text::cleaned(socket),
            },
        }
    }

    pub fn status(&self, now: u64, socket: &str) -> (r: String)
        requires
            self.updated matches Some(updated) ==> updated <= now,
        ensures
            r@ == self.status_text(now, socket@),
    {
        if let Some(e) = &self.error {
            let mut out: String = "Unavailable: ".to_owned();
            out.append(clean(e.as_str()).as_str());
            return out;
        }
        let updated: u64 = match self.updated {
            Some(updated) => updated,
            None => return "Connecting...".to_owned(),
        };
        let mut out: String = String::new();
        if self.request.tab == Tab::Experts {
            out.append("layer ");
            out.append(decimal(self.request.layer as u64).as_str());
            out.append(" | ");
        }
        let ghost position = out@;
        proof {
            if self.request.tab == Tab::Experts {
                assert(position =~= "layer "@ + text::decimal_of(self.request.layer as nat) + " | "@);
            } else {
                assert(position =~= Seq::<char>::empty());
            }
        }
        out.append("updated ");
        out.append(decimal((now - updated) / 1_000_000_000).as_str());
        out.append("s ago | ");
        out.append(clean(socket).as_str());
        out
    }
}

/// Where the list of layers is read for a request, and how many: experts need only the count.
pub fn layer_query(request: &Request) -> (r: (usize, usize))
    ensures
        r == if request.tab == Tab::Experts {
            (0usize, 1usize)
        } else {
            (request.offset, PAGE_SIZE)
        },
{
    if request.tab == Tab::Experts {
        (0, 1)
    } else {
        (request.offset, PAGE_SIZE)
    }
}

/// What is read of a layer's experts for a request, where experts are shown: the layer, the
/// offset and how many.
pub fn expert_query(request: &Request, layer_count: usize) -> (r: Result<Option<(usize, usize, usize)>, String>)
    ensures
        if request.tab != Tab::Experts {
            r == Ok::<Option<(usize, usize, usize)>, String>(None)
        } else if request.layer < layer_count {
            r == Ok::<Option<(usize, usize, usize)>, String>(Some((request.layer, request.offset, PAGE_SIZE)))
        } else {
            r matches Err(e) && e@ == "layer "@ + text::decimal_of(request.layer as nat)
                + " is unavailable; return to Layers"@
        },
{
    if request.tab != Tab::Experts {
        return Ok(None);
    }
    if request.layer < layer_count {
        return Ok(Some((request.layer, request.offset, PAGE_SIZE)));
    }
    let mut out: String = "layer ".to_owned();
    out.append(decimal(request.layer as u64).as_str());
    out.append(" is unavailable; return to Layers");
    Err(out)
}

/// How the dashboard's body is divided.
#[derive(Debug, Clone, Copy, PartialEq, Eq, Structural)]
pub enum Division {
    Nothing,
    /// Small terminals show only the focused pane.
    Single(Pane),
    /// Rows beside details, with the charts above them or not.
    Split { charts: bool },
}

/// Divides a body of a size.
pub fn divide(state: &State, width: u16, height: u16) -> (r: Division)
    ensures
        r == if width < 2 || height == 0 {
            Division::Nothing
        } else if state@.expanded || width < 65 || height < 12 {
            Division::Single(state@.pane)
        } else {
            Division::Split { charts: state@.request.tab == Tab::Summary }
        },
{
    if width < 2 || height == 0 {
        Division::Nothing
    } else if state.expanded || width < 65 || height < 12 {
        Division::Single(state.pane)
    } else {
        Division::Split { charts: state.request.tab == Tab::Summary }
    }
}

/// Where the help stands within an area: in the middle, and no larger than the area.
pub fn help_area(x: u16, y: u16, width: u16, height: u16) -> (r: (u16, u16, u16, u16))
    requires
        x + width <= u16::MAX,
        y + height <= u16::MAX,
    ensures
        r.2 == if width < 66 {
            width
        } else {
            66
        },
        r.3 == if height < 22 {
            height
        } else {
            22
        },
        r.0 == x + (width - r.2) / 2,
        r.1 == y + (height - r.3) / 2,
{
    let w: u16 = if width < 66 {
        width
    } else {
        66
    };
    let h: u16 = if height < 22 {
        height
    } else {
        22
    };
    (x + (width - w) / 2, y + (height - h) / 2, w, h)
}

/// Escape undoes a look into a layer and does not quit: tab, offset, layer, selection and pages
/// are what they were, and the generation has gone on, so that older replies are dropped. The
/// next escape quits. The same holds of the keys.
pub proof fn law_escape_undoes_inspect(d: Dash, now: u64, later: u64)
    requires
        d.request.tab != Tab::Experts,
        d.pane == Pane::Rows,
        d.rows matches Some(rows) && (d.selected matches Some(i) && i < rows.len()),
        d.request.generation < u64::MAX - 1,
    ensures
        ({
            let back = d.inspected(now).escaped(later);
            &&& d.inspected(now).request.tab == Tab::Experts
            &&& !d.inspected(now).at_top()
            &&& back.at_top()
            &&& back.request.generation > d.request.generation
            &&& !d.help ==> {
                &&& d.pressed(Key::Enter, false, now) == d.inspected(now)
                &&& d.pressed(Key::Enter, false, now).pressed(Key::Esc, false, later) == back
                &&& !d.pressed(Key::Enter, false, now).quits(Key::Esc, false)
                &&& back.quits(Key::Esc, false)
            }
            &&& back.request == (Request { generation: (d.request.generation + 2) as u64, ..d.request })
            &&& back.selected == d.selected
            &&& back.previous == d.previous
            &&& back.pane == d.pane
            &&& back.back is None
        }),
{
}

/// The previous page undoes the next one: offset and pages are what they were.
pub proof fn law_previous_undoes_next(d: Dash, now: u64, later: u64)
    requires
        d.next_offset is Some,
        d.request.generation < u64::MAX - 1,
    ensures
        ({
            let back = d.to_next_page(now).to_previous_page(later);
            &&& back.request.offset == d.request.offset
            &&& back.request.layer == d.request.layer
            &&& back.request.tab == d.request.tab
            &&& back.previous == d.previous
        }),
{
    assert(d.previous.push(d.request.offset).drop_last() =~= d.previous);
}

/// A reply to a request that has changed since changes nothing.
pub proof fn law_stale_reply_dropped(
    d: Dash,
    request: Request,
    result: Result<(Seq<usize>, Option<usize>, usize), Seq<char>>,
    now: u64,
)
    requires
        request.generation != d.request.generation,
    ensures
        d.accepted(request, result, now) == d,
{
}

/// Every key that changes what is asked for goes on to another generation, so that no earlier
/// reply can be taken for an answer.
pub proof fn law_new_request_new_generation(d: Dash, key: Key, control: bool, now: u64)
    requires
        d.request.generation < u64::MAX,
        d.pressed(key, control, now).request != d.request,
    ensures
        d.pressed(key, control, now).request.generation == d.request.generation + 1,
{
}

/// A row that is selected is one that is shown, whatever reply came and whatever key was
/// pressed.
pub proof fn law_selection_in_rows(
    d: Dash,
    request: Request,
    result: Result<(Seq<usize>, Option<usize>, usize), Seq<char>>,
    now: u64,
    key: Key,
)
    requires
        d.rows matches Some(rows) ==> (d.selected matches Some(i) ==> i < rows.len()),
        d.rows matches Some(rows) ==> rows.len() <= usize::MAX,
        result matches Ok((rows, _, _)) ==> rows.len() <= usize::MAX,
    ensures
        ({
            let after = d.accepted(request, result, now);
            after.rows matches Some(rows) ==> (after.selected matches Some(i) ==> i < rows.len())
        }),
        ({
            let after = d.selecting(key);
            after.rows matches Some(rows) ==> (after.selected matches Some(i) ==> i < rows.len())
        }),
{
}

/// The dashboard ends with a q, with control and a c, and with an escape that has nothing to undo; and
/// any other key, while the help is shown, only closes the help.
pub proof fn law_key_quits(s: &mut State, key: Key, control: bool, now: u64, r: Outcome)
    requires
        call_ensures(State::key, (s, key, control, now), r),
        old(s).request.generation < u64::MAX,
    ensures
        key == Key::Char('q') || (key == Key::Char('c') && control) ==> r.quit && final(s)@ == old(s)@,
        key == Key::Esc ==> (r.quit <==> !old(s).help && !old(s).expanded && old(s).back is None),
        key != Key::Char('q') && key != Key::Char('c') && key != Key::Esc ==> !r.quit,
        old(s).help && !r.quit ==> !final(s).help && final(s).request == old(s).request && final(s).selected == old(
            s
        ).selected && final(s).pane == old(s).pane && r.scroll is Stay,
        key == Key::Char('?') && !old(s).help ==> final(s).help && final(s).request == old(s).request,
        final(s).history == old(s).history,
{
}

/// A number leads to its tab, at its first page; the tab that is shown already stays as it is.
pub proof fn law_key_tabs(s: &mut State, key: Key, tab: Tab, now: u64, r: Outcome)
    requires
        call_ensures(State::key, (s, key, false, now), r),
        old(s).request.generation < u64::MAX,
        !old(s).help,
        (key == Key::Char('1') && tab == Tab::Summary) || (key == Key::Char('2') && tab == Tab::Layers) || (key
            == Key::Char('3') && tab == Tab::Experts),
    ensures
        final(s).request.tab == tab,
        old(s).request.tab == tab ==> final(s)@ == old(s)@,
        old(s).request.tab != tab ==> {
            &&& final(s).request.offset == 0 && final(s).request.layer == old(s).request.layer
            &&& final(s).request.generation == old(s).request.generation + 1
            &&& final(s).snapshot is None && final(s).selected is None && final(s).previous@.len() == 0
            &&& final(s).back is None && !final(s).expanded && final(s).pane is Rows
            &&& final(s).refresh_at == now
        },
{
}

/// An n leads to the next page, where there is one, and a p back to the page before.
pub proof fn law_key_pages(s: &mut State, key: Key, now: u64, r: Outcome)
    requires
        call_ensures(State::key, (s, key, false, now), r),
        old(s).request.generation < u64::MAX,
        !old(s).help,
    ensures
        key == Key::Char('n') ==> (match old(s).next_offset {
            Some(offset) => final(s).request.offset == offset && final(s).previous@ == old(s).previous@.push(
                old(s).request.offset,
            ) && final(s).request.tab == old(s).request.tab && final(s).request.layer == old(s).request.layer && final(
                s
            ).refresh_at == now,
            None => final(s)@ == old(s)@,
        }),
        key == Key::Char('p') && old(s).previous@.len() > 0 ==> final(s).request.offset == old(s).previous@.last() && final(
            s
        ).previous@ == old(s).previous@.drop_last() && final(s).request.tab == old(s).request.tab,
        key == Key::Char('p') && old(s).previous@.len() == 0 ==> final(s)@ == old(s)@,
        key == Key::Char('r') ==> final(s).refresh_at == now && final(s).request == old(s).request,
        key == Key::Char('f') ==> final(s).expanded == !old(s).expanded && final(s).request == old(s).request,
{
}

/// A bracket leads to the layer before or behind, among the experts only and never beyond the first or
/// the last layer.
pub proof fn law_key_layers(s: &mut State, key: Key, now: u64, r: Outcome)
    requires
        call_ensures(State::key, (s, key, false, now), r),
        old(s).request.generation < u64::MAX,
        !old(s).help,
        old(s).request.layer < usize::MAX,
        old(s).layer_count matches Some(n) && old(s).request.layer < n,
        key == Key::Char('[') || key == Key::Char(']'),
    ensures
        !(old(s).request.tab is Experts) ==> final(s)@ == old(s)@,
        old(s).request.tab is Experts && key == Key::Char('[') ==> (if old(s).request.layer > 0 {
            final(s).request.layer == old(s).request.layer - 1 && final(s).request.offset == 0
        } else {
            final(s)@ == old(s)@
        }),
        old(s).request.tab is Experts && key == Key::Char(']') ==> (if old(s).request.layer + 1 < old(s).layer_count->0 {
            final(s).request.layer == old(s).request.layer + 1 && final(s).request.offset == 0
        } else {
            final(s)@ == old(s)@
        }),
{
}

/// Among the rows, the keys move the selection by one row, or to the first or last, and never off the
/// rows; nothing else of the request changes.
pub proof fn law_key_rows(s: &mut State, key: Key, now: u64, r: Outcome, rows: Seq<usize>, i: usize)
    requires
        call_ensures(State::key, (s, key, false, now), r),
        old(s).request.generation < u64::MAX,
        !old(s).help,
        old(s).pane is Rows,
        old(s)@.rows == Some(rows),
        old(s).selected == Some(i),
        i < rows.len(),
        rows.len() <= usize::MAX,
    ensures
        key == Key::Down || key == Key::Char('j') ==> final(s).selected == Some(
            if i + 1 < rows.len() {
                (i + 1) as usize
            } else {
                i
            },
        ),
        key == Key::Up || key == Key::Char('k') ==> final(s).selected == Some(
            if i > 0 {
                (i - 1) as usize
            } else {
                i
            },
        ),
        key == Key::Home || key == Key::PageUp ==> final(s).selected == Some(0usize),
        key == Key::End || key == Key::PageDown ==> final(s).selected == Some((rows.len() - 1) as usize),
        key == Key::Down || key == Key::Up || key == Key::Home || key == Key::End || key == Key::PageUp || key
            == Key::PageDown ==> final(s).request == old(s).request && final(s).pane is Rows,
        key == Key::Enter && !(old(s).request.tab is Experts) ==> {
            &&& final(s).request.tab is Experts
            &&& final(s).request.layer == rows[i as int]
            &&& final(s).request.offset == 0
            &&& final(s).back matches Some(spot) && spot.request == old(s).request && spot.selected == Some(i)
        },
{
}

/// An escape closes what is expanded first, and else leads back to where the rows were inspected from.
pub proof fn law_key_escapes(s: &mut State, now: u64, r: Outcome)
    requires
        call_ensures(State::key, (s, Key::Esc, false, now), r),
        old(s).request.generation < u64::MAX,
        !old(s).help,
    ensures
        old(s).expanded ==> !final(s).expanded && final(s).request == old(s).request && final(s)@.back == old(s)@.back,
        !old(s).expanded && old(s).back is Some ==> {
            let spot = old(s).back->0;
            &&& final(s).request.tab == spot.request.tab && final(s).request.offset == spot.request.offset
            &&& final(s).request.layer == spot.request.layer && final(s).selected == spot.selected
            &&& final(s).previous@ == spot.pages@ && final(s).back is None
            &&& final(s).request.generation == old(s).request.generation + 1
        },
{
}

/// An answer counts only for the request that is shown; then it is told, and asked for again a second
/// later. An error keeps what was shown.
pub proof fn law_answer_accepted(s: &mut State, request: Request, result: Result<Snapshot, String>, now: u64)
    requires
        call_ensures(State::accept, (s, request, result, now), ()),
        now + 1_000_000_000 <= u64::MAX,
    ensures
        !final(s).in_flight,
        request != old(s).request ==> final(s).snapshot == old(s).snapshot && final(s).refresh_at == old(s).refresh_at
            && final(s).history == old(s).history && final(s).selected == old(s).selected,
        request == old(s).request ==> final(s).refresh_at == now + 1_000_000_000,
        request == old(s).request && result is Ok ==> {
            &&& final(s).snapshot == Some(result->Ok_0)
            &&& final(s).updated == Some(now)
            &&& final(s).error is None
            &&& final(s).layer_count == Some(result->Ok_0.layer_count)
        },
        request == old(s).request && result is Err ==> final(s).snapshot == old(s).snapshot && (final(s).error matches Some(e)
            && e@ == result->Err_0@) && final(s).updated == old(s).updated,
{
    if request == old(s).request && result is Ok {
        assert(final(s)@.error is None);
    }
    if request == old(s).request && result is Err {
        assert(final(s)@.error == Some(result->Err_0@));
    }
}

/// A request is sent once it is due and none is under way, and is then under way.
pub proof fn law_asks_when_due(s: &mut State, now: u64, r: Option<Request>)
    requires
        call_ensures(State::ask, (s, now), r),
    ensures
        r is Some <==> !old(s).in_flight && now >= old(s).refresh_at,
        r matches Some(request) ==> request == old(s).request && final(s).in_flight,
        r is None ==> final(s).in_flight == old(s).in_flight,
{
}

/// Panes take turns; the history is among them only in the overview.
pub proof fn law_panes_in_turn(pane: Pane, overview: bool, r: Pane)
    requires
        call_ensures(Pane::next, (pane, overview), r),
    ensures
        pane is History ==> r is Rows,
        pane is Rows ==> r is Detail,
        pane is Detail && overview ==> r is History,
        pane is Detail && !overview ==> r is Rows,
{
}

/// Layers are asked for by the page, eight at a time, and one of them alone among the experts; experts
/// only of a layer that there is.
pub proof fn law_queries(request: Request, layer_count: usize, l: (usize, usize), e: Result<Option<(usize, usize, usize)>, String>)
    requires
        call_ensures(layer_query, (&request,), l),
        call_ensures(expert_query, (&request, layer_count), e),
    ensures
        request.tab is Experts ==> l == (0usize, 1usize),
        !(request.tab is Experts) ==> l == (request.offset, 8usize),
        !(request.tab is Experts) ==> e == Ok::<Option<(usize, usize, usize)>, String>(None),
        request.tab is Experts ==> (e is Ok <==> request.layer < layer_count),
        request.tab is Experts && e is Ok ==> e->Ok_0 == Some((request.layer, request.offset, 8usize)),
{
}

/// A narrow or expanded dashboard shows one pane, the one in focus; a wide one is split.
pub proof fn law_divided(state: State, width: u16, height: u16, r: Division)
    requires
        call_ensures(divide, (&state, width, height), r),
    ensures
        r is Nothing <==> width < 2 || height == 0,
        width >= 2 && height > 0 && (state.expanded || width < 65 || height < 12) ==> r == Division::Single(state.pane),
        width >= 65 && height >= 12 && !state.expanded ==> r == (Division::Split { charts: state.request.tab is Summary }),
{
}

/// The help lies in the middle, as large as 66 by 22 where there is room.
pub proof fn law_help_area(x: u16, y: u16, width: u16, height: u16, r: (u16, u16, u16, u16))
    requires
        call_ensures(help_area, (x, y, width, height), r),
        x + width <= u16::MAX,
        y + height <= u16::MAX,
    ensures
        r.2 <= width && r.2 <= 66 && (r.2 == width || r.2 == 66),
        r.3 <= height && r.3 <= 22 && (r.3 == height || r.3 == 22),
        x <= r.0 && 0 <= (x + width - (r.0 + r.2)) - (r.0 - x) <= 1,
        y <= r.1 && 0 <= (y + height - (r.1 + r.3)) - (r.1 - y) <= 1,
{
}

} // verus!
