use vstd::prelude::*;

use crate::geometry::Rect;
use crate::layout::{lemma_apart_disjoint, lemma_tiled_exact, lemma_tiles_apart, tile, tiled};

verus! {

/// A tracked top-level surface and its layout attributes.
#[derive(Clone, Copy, Debug, PartialEq, Eq, Structural)]
pub struct Window {
    /// Identity of the client surface; unique within a `State`.
    pub surface: u64,
    /// The geometry last handed to the client.
    pub geometry: Rect,
    /// The surface has been sent its initial configure.
    pub configured: bool,
}

/// A configure to send: the client is asked to take `geometry`.
#[derive(Clone, Copy, Debug, PartialEq, Eq, Structural)]
pub struct Configure {
    pub surface: u64,
    pub geometry: Rect,
}

/// Why a registration was refused.
#[derive(Clone, Copy, Debug, PartialEq, Eq, Structural)]
pub enum RegistryError {
    /// The surface is tracked already.
    DuplicateSurface,
}

/// What the host does with a commit.
#[derive(Clone, Copy, Debug, PartialEq, Eq, Structural)]
pub enum CommitOutcome {
    /// The surface is not tracked: nothing changed, the commit is only
    /// worth a diagnostic.
    UnknownSurface,
    /// The surface has had its initial configure: its content goes forward.
    Visible,
    /// The surface had no configure yet: send this one, and forward the
    /// content.
    ConfigureFirst(Configure),
}

/// The geometry of a window that has not been laid out yet: the origin and
/// no size, which lets the client pick its own size.
pub open spec fn unplaced() -> Rect {
    Rect { x: 0, y: 0, width: 0, height: 0 }
}

/// Abstract contents of a `State`: the windows in insertion order and the
/// output, if one is known.
pub struct StateModel {
    pub windows: Seq<Window>,
    pub output: Option<Rect>,
}

impl StateModel {
    /// No surface appears twice, and the output can be tiled.
    pub open spec fn wf(self) -> bool {
        &&& forall|i: int, j: int|
            0 <= i < self.windows.len() && 0 <= j < self.windows.len() && i != j
                ==> #[trigger] self.windows[i].surface != #[trigger] self.windows[j].surface
        &&& match self.output {
            Some(o) => o.fits_tiling(),
            None => true,
        }
    }

    pub open spec fn tracks(self, s: u64) -> bool {
        exists|i: int| 0 <= i < self.windows.len() && #[trigger] self.windows[i].surface == s
    }

    /// Position of surface `s` in insertion order (meaningful where tracked).
    pub open spec fn index_of(self, s: u64) -> int {
        choose|i: int| 0 <= i < self.windows.len() && #[trigger] self.windows[i].surface == s
    }

    pub open spec fn window(self, s: u64) -> Window {
        self.windows[self.index_of(s)]
    }

    /// Every window given its tile and marked configured; no change without
    /// an output.
    pub open spec fn laid_out(self) -> StateModel {
        match self.output {
            Some(o) => StateModel {
                windows: Seq::new(
                    self.windows.len(),
                    |i: int|
                        Window {
                            surface: self.windows[i].surface,
                            geometry: tiled(o, self.windows.len() as int, i),
                            configured: true,
                        },
                ),
                output: self.output,
            },
            None => self,
        }
    }

    /// The configures that laying out sends, one per window in order.
    pub open spec fn configures(self) -> Seq<Configure> {
        match self.output {
            Some(o) => Seq::new(
                self.windows.len(),
                |i: int|
                    Configure {
                        surface: self.windows[i].surface,
                        geometry: tiled(o, self.windows.len() as int, i),
                    },
            ),
            None => Seq::empty(),
        }
    }

    /// Surface `s` appended as a new, unplaced and unconfigured window.
    pub open spec fn with_window(self, s: u64) -> StateModel {
        StateModel {
            windows: self.windows.push(Window { surface: s, geometry: unplaced(), configured: false }),
            output: self.output,
        }
    }

    /// Surface `s` taken out, the others keeping their order.
    pub open spec fn without(self, s: u64) -> StateModel {
        StateModel { windows: self.windows.remove(self.index_of(s)), output: self.output }
    }

    /// The state after a commit of `s`.
    pub open spec fn committed(self, s: u64) -> StateModel {
        if self.tracks(s) {
            StateModel {
                windows: self.windows.update(
                    self.index_of(s),
                    Window { configured: true, ..self.window(s) },
                ),
                output: self.output,
            }
        } else {
            self
        }
    }

    /// What a commit of `s` asks of the host.
    pub open spec fn commit_outcome(self, s: u64) -> CommitOutcome {
        if !self.tracks(s) {
            CommitOutcome::UnknownSurface
        } else if self.window(s).configured {
            CommitOutcome::Visible
        } else {
            CommitOutcome::ConfigureFirst(Configure { surface: s, geometry: self.window(s).geometry })
        }
    }
}

/// The compositor core: the ordered windows, the output they are tiled on,
/// and each window's configure handshake.
pub struct State {
    windows: Vec<Window>,
    output: Option<Rect>,
}

impl View for State {
    type V = StateModel;

    closed spec fn view(&self) -> StateModel {
        StateModel { windows: self.windows@, output: self.output }
    }
}

proof fn lemma_index_of(m: StateModel, s: u64, i: int)
    requires
        m.wf(),
        0 <= i < m.windows.len(),
        m.windows[i].surface == s,
    ensures
        m.tracks(s),
        m.index_of(s) == i,
{
    assert(m.tracks(s));
}

impl State {
    /// No windows and no output.
    pub fn new() -> (r: State)
        ensures
            r@.wf(),
            r@.windows.len() == 0,
            r@.output is None,
    {
        State { windows: Vec::new(), output: None }
    }

    /// The windows in insertion order.
    pub fn windows(&self) -> (r: &Vec<Window>)
        ensures
            r@ == self@.windows,
    {
        &self.windows
    }

    /// The output, if one is known.
    pub fn output(&self) -> (r: Option<Rect>)
        ensures
            r == self@.output,
    {
        self.output
    }

    /// Position of `surface` in insertion order, if it is tracked.
    pub fn find(&self, surface: u64) -> (r: Option<usize>)
        requires
            self@.wf(),
        ensures
            r == if self@.tracks(surface) {
                Some(self@.index_of(surface) as usize)
            } else {
                None::<usize>
            },
            r matches Some(i) ==> i < self@.windows.len() && self@.windows[i as int].surface
                == surface,
    {
        let mut i: usize = 0;
        while i < self.windows.len()
            invariant
                self@.wf(),
                0 <= i <= self.windows@.len(),
                forall|k: int| 0 <= k < i ==> self.windows@[k].surface != surface,
            decreases self.windows@.len() - i,
        {
            if self.windows[i].surface == surface {
                proof {
                    lemma_index_of(self@, surface, i as int);
                }
                return Some(i);
            }
            i += 1;
        }
        None
    }

    /// Appends `surface` as a new window, last in the order.
    pub fn add(&mut self, surface: u64) -> (r: Result<usize, RegistryError>)
        requires
            old(self)@.wf(),
        ensures
            final(self)@.wf(),
            old(self)@.tracks(surface) ==> r == Err::<usize, RegistryError>(
                RegistryError::DuplicateSurface,
            ) && final(self)@ == old(self)@,
            !old(self)@.tracks(surface) ==> r == Ok::<usize, RegistryError>(
                old(self)@.windows.len() as usize,
            ) && final(self)@ == old(self)@.with_window(surface),
    {
        if self.find(surface).is_some() {
            return Err(RegistryError::DuplicateSurface);
        }
        let index = self.windows.len();
        self.windows.push(Window { surface, geometry: Rect::new(0, 0, 0, 0), configured: false });
        proof {
            assert(self@ =~= old(self)@.with_window(surface));
        }
        Ok(index)
    }

    /// Takes `surface` out of the order; the others keep theirs.
    pub fn remove(&mut self, surface: u64) -> (r: Option<Window>)
        requires
            old(self)@.wf(),
        ensures
            final(self)@.wf(),
            old(self)@.tracks(surface) ==> r == Some(old(self)@.window(surface)) && final(self)@
                == old(self)@.without(surface),
            !old(self)@.tracks(surface) ==> r is None && final(self)@ == old(self)@,
    {
        match self.find(surface) {
            None => None,
            Some(i) => {
                let w = self.windows.remove(i);
                proof {
                    assert(self@ =~= old(self)@.without(surface));
                    lemma_without_wf(old(self)@, surface);
                }
                Some(w)
            },
        }
    }

    /// Replaces the output the windows are tiled on.
    pub fn set_output(&mut self, output: Rect)
        requires
            old(self)@.wf(),
            output.fits_tiling(),
        ensures
            final(self)@.wf(),
            final(self)@ == (StateModel { output: Some(output), ..old(self)@ }),
    {
        self.output = Some(output);
    }

    /// Gives every window its tile and returns the configures that carry
    /// the new geometry to the clients, one per window in order. Without an
    /// output nothing changes and nothing is sent.
    pub fn refresh_geometry(&mut self) -> (r: Vec<Configure>)
        requires
            old(self)@.wf(),
        ensures
            final(self)@.wf(),
            final(self)@ == old(self)@.laid_out(),
            r@ == old(self)@.configures(),
    {
        let o = match self.output {
            None => return Vec::new(),
            Some(o) => o,
        };
        let n = self.windows.len();
        let mut sent: Vec<Configure> = Vec::new();
        let mut i: usize = 0;
        while i < n
            invariant
                n == old(self)@.windows.len(),
                self.windows@.len() == n,
                self.output == old(self).output,
                self.output == Some(o),
                old(self)@.wf(),
                i <= n,
                sent@.len() == i,
                forall|k: int|
                    0 <= k < i ==> #[trigger] self.windows@[k] == old(self)@.laid_out().windows[k],
                forall|k: int| i <= k < n ==> #[trigger] self.windows@[k] == old(self)@.windows[k],
                forall|k: int| 0 <= k < i ==> #[trigger] sent@[k] == old(self)@.configures()[k],
            decreases n - i,
        {
            let g = tile(&o, n, i);
            let s = self.windows[i].surface;
            self.windows[i] = Window { surface: s, geometry: g, configured: true };
            sent.push(Configure { surface: s, geometry: g });
            i += 1;
        }
        proof {
            assert(self@.windows =~= old(self)@.laid_out().windows);
            assert(sent@ =~= old(self)@.configures());
            lemma_laid_out_wf(old(self)@);
        }
        sent
    }
    /// Registers a new top-level surface, last in the order, and lays the
    /// windows out again; returns the configures to send.
    pub fn on_window_created(&mut self, surface: u64) -> (r: Result<Vec<Configure>, RegistryError>)
        requires
            old(self)@.wf(),
        ensures
            final(self)@.wf(),
            old(self)@.tracks(surface) ==> r == Err::<Vec<Configure>, RegistryError>(
                RegistryError::DuplicateSurface,
            ) && final(self)@ == old(self)@,
            !old(self)@.tracks(surface) ==> r is Ok && r->Ok_0@ == old(self)@.with_window(
                surface,
            ).configures() && final(self)@ == old(self)@.with_window(surface).laid_out(),
    {
        match self.add(surface) {
            Err(e) => Err(e),
            Ok(_) => Ok(self.refresh_geometry()),
        }
    }

    /// Forgets a surface that went away and lays the others out again;
    /// `None`, and no change, for a surface that is not tracked.
    pub fn on_window_destroyed(&mut self, surface: u64) -> (r: Option<Vec<Configure>>)
        requires
            old(self)@.wf(),
        ensures
            final(self)@.wf(),
            old(self)@.tracks(surface) ==> r is Some && r->Some_0@ == old(self)@.without(
                surface,
            ).configures() && final(self)@ == old(self)@.without(surface).laid_out(),
            !old(self)@.tracks(surface) ==> r is None && final(self)@ == old(self)@,
    {
        match self.remove(surface) {
            None => None,
            Some(_) => Some(self.refresh_geometry()),
        }
    }

    /// Takes a new output and lays the windows out on it.
    pub fn on_output_changed(&mut self, output: Rect) -> (r: Vec<Configure>)
        requires
            old(self)@.wf(),
            output.fits_tiling(),
        ensures
            final(self)@.wf(),
            final(self)@ == (StateModel { output: Some(output), ..old(self)@ }).laid_out(),
            r@ == (StateModel { output: Some(output), ..old(self)@ }).configures(),
    {
        self.set_output(output);
        self.refresh_geometry()
    }

    /// A client committed `surface`. A surface that has not had its
    /// initial configure is sent one first; from then on it counts as
    /// configured. A surface that is not tracked changes nothing.
    pub fn on_window_committed(&mut self, surface: u64) -> (r: CommitOutcome)
        requires
            old(self)@.wf(),
        ensures
            final(self)@.wf(),
            final(self)@ == old(self)@.committed(surface),
            r == old(self)@.commit_outcome(surface),
    {
        match self.find(surface) {
            None => CommitOutcome::UnknownSurface,
            Some(i) => {
                proof {
                    lemma_index_of(old(self)@, surface, i as int);
                }
                let w = self.windows[i];
                if w.configured {
                    proof {
                        assert(self@.windows =~= old(self)@.committed(surface).windows);
                    }
                    CommitOutcome::Visible
                } else {
                    self.windows[i] = Window { surface: w.surface, geometry: w.geometry, configured: true };
                    proof {
                        assert(self@.windows =~= old(self)@.committed(surface).windows);
                        let m = self@;
                        assert forall|a: int, b: int|
                            0 <= a < m.windows.len() && 0 <= b < m.windows.len() && a != b
                                implies #[trigger] m.windows[a].surface
                            != #[trigger] m.windows[b].surface by {
                            assert(m.windows[a].surface == old(self)@.windows[a].surface);
                            assert(m.windows[b].surface == old(self)@.windows[b].surface);
                        }
                    }
                    CommitOutcome::ConfigureFirst(Configure { surface, geometry: w.geometry })
                }
            },
        }
    }
}

proof fn lemma_laid_out_wf(m: StateModel)
    requires
        m.wf(),
    ensures
        m.laid_out().wf(),
        m.laid_out().windows.len() == m.windows.len(),
        forall|i: int|
            0 <= i < m.windows.len() ==> #[trigger] m.laid_out().windows[i].surface
                == m.windows[i].surface,
{
    let l = m.laid_out();
    assert forall|i: int, j: int|
        0 <= i < l.windows.len() && 0 <= j < l.windows.len() && i != j
            implies #[trigger] l.windows[i].surface != #[trigger] l.windows[j].surface by {
        assert(m.windows[i].surface != m.windows[j].surface);
    }
}

proof fn lemma_without_wf(m: StateModel, s: u64)
    requires
        m.wf(),
        m.tracks(s),
    ensures
        m.without(s).wf(),
{
    let j = m.index_of(s);
    let w = m.without(s);
    assert forall|a: int, b: int|
        0 <= a < w.windows.len() && 0 <= b < w.windows.len() && a != b
            implies #[trigger] w.windows[a].surface != #[trigger] w.windows[b].surface by {
        let a0 = if a < j { a } else { a + 1 };
        let b0 = if b < j { b } else { b + 1 };
        assert(w.windows[a] == m.windows[a0]);
        assert(w.windows[b] == m.windows[b0]);
    }
}

proof fn lemma_with_window_wf(m: StateModel, s: u64)
    requires
        m.wf(),
        !m.tracks(s),
    ensures
        m.with_window(s).wf(),
        m.with_window(s).tracks(s),
        m.with_window(s).index_of(s) == m.windows.len(),
{
    let w = m.with_window(s);
    assert forall|a: int, b: int|
        0 <= a < w.windows.len() && 0 <= b < w.windows.len() && a != b
            implies #[trigger] w.windows[a].surface != #[trigger] w.windows[b].surface by {
        if a < m.windows.len() && b < m.windows.len() {
            assert(m.windows[a].surface != m.windows[b].surface);
        } else if a < m.windows.len() {
            assert(m.windows[a].surface != s);
        } else {
            assert(m.windows[b].surface != s);
        }
    }
    lemma_index_of(w, s, m.windows.len() as int);
}

/// After a layout on an output no two windows overlap, whatever their
/// number and the size of the output: every two are apart, and no point
/// lies in both.
pub proof fn lemma_layout_no_overlap(m: StateModel, i: int, j: int)
    requires
        m.wf(),
        m.output is Some,
        0 <= i < m.windows.len(),
        0 <= j < m.windows.len(),
        i != j,
    ensures
        m.laid_out().windows[i].geometry.apart(m.laid_out().windows[j].geometry),
        forall|px: int, py: int|
            !(m.laid_out().windows[i].geometry.contains(px, py) && m.laid_out().windows[
                j
            ].geometry.contains(px, py)),
{
    let a = m.laid_out().windows[i].geometry;
    let b = m.laid_out().windows[j].geometry;
    lemma_tiles_apart(m.output->Some_0, m.windows.len() as int, i, j);
    assert forall|px: int, py: int| !(a.contains(px, py) && b.contains(px, py)) by {
        lemma_apart_disjoint(a, b, px, py);
    }
}

/// Laying out again, with nothing changed in between, gives the same
/// windows and sends the same configures as the first time.
pub proof fn lemma_layout_idempotent(m: StateModel)
    requires
        m.wf(),
    ensures
        m.laid_out().laid_out() == m.laid_out(),
        m.laid_out().configures() == m.configures(),
{
    if m.output is Some {
        assert(m.laid_out().laid_out().windows =~= m.laid_out().windows);
        assert(m.laid_out().configures() =~= m.configures());
    }
}

/// When the master goes away, the oldest survivor becomes the master: it
/// takes the master's place, row and height, and with three windows or more
/// before, exactly the tile the old master had.
pub proof fn lemma_master_promotion(m: StateModel)
    requires
        m.wf(),
        m.output is Some,
        m.windows.len() >= 2,
    ensures
        ({
            let before = m.laid_out().windows[0].geometry;
            let after = m.without(m.windows[0].surface).laid_out().windows[0];
            &&& after.surface == m.windows[1].surface
            &&& after.geometry.x == before.x
            &&& after.geometry.y == before.y
            &&& after.geometry.height == before.height
            &&& m.windows.len() >= 3 ==> after.geometry == before
        }),
{
    let o = m.output->Some_0;
    let n = m.windows.len() as int;
    lemma_index_of(m, m.windows[0].surface, 0);
    lemma_tiled_exact(o, n, 0);
    lemma_tiled_exact(o, n - 1, 0);
}

/// A commit of a tracked surface leaves it configured. It sends a configure
/// exactly when the surface had none before, and the next commit sends none.
pub proof fn lemma_commit_configures_once(m: StateModel, s: u64)
    requires
        m.wf(),
        m.tracks(s),
    ensures
        m.committed(s).wf(),
        m.committed(s).tracks(s),
        m.committed(s).window(s).configured,
        (m.commit_outcome(s) is ConfigureFirst) == !m.window(s).configured,
        m.committed(s).commit_outcome(s) == CommitOutcome::Visible,
{
    let i = m.index_of(s);
    let c = m.committed(s);
    assert forall|a: int, b: int|
        0 <= a < c.windows.len() && 0 <= b < c.windows.len() && a != b
            implies #[trigger] c.windows[a].surface != #[trigger] c.windows[b].surface by {
        assert(c.windows[a].surface == m.windows[a].surface);
        assert(c.windows[b].surface == m.windows[b].surface);
    }
    lemma_index_of(c, s, i);
}

/// From its creation to its first commit a new surface is sent exactly one
/// configure: by the layout when an output is known, else by the commit
/// itself. Its second commit sends none.
pub proof fn lemma_new_surface_configured_once(m: StateModel, s: u64)
    requires
        m.wf(),
        !m.tracks(s),
    ensures
        ({
            let sent = m.with_window(s).configures();
            let created = m.with_window(s).laid_out();
            let first = created.commit_outcome(s);
            let second = created.committed(s).commit_outcome(s);
            &&& m.output is Some ==> {
                &&& sent.len() > 0
                &&& sent.last().surface == s
                &&& forall|k: int| 0 <= k < sent.len() - 1 ==> #[trigger] sent[k].surface != s
                &&& first == CommitOutcome::Visible
            }
            &&& m.output is None ==> {
                &&& sent.len() == 0
                &&& first == CommitOutcome::ConfigureFirst(
                    Configure { surface: s, geometry: unplaced() },
                )
            }
            &&& second == CommitOutcome::Visible
        }),
{
    let w = m.with_window(s);
    lemma_with_window_wf(m, s);
    lemma_laid_out_wf(w);
    let created = w.laid_out();
    lemma_index_of(created, s, m.windows.len() as int);
    lemma_commit_configures_once(created, s);
    if m.output is Some {
        let sent = w.configures();
        assert forall|k: int| 0 <= k < sent.len() - 1 implies #[trigger] sent[k].surface != s by {
            assert(w.windows[k].surface == m.windows[k].surface);
        }
    }
}

/// A layout and its configures go together: what each window is sent is
/// exactly the geometry it is left with.
pub proof fn lemma_configures_match_layout(m: StateModel)
    requires
        m.wf(),
        m.output is Some,
    ensures
        m.configures().len() == m.laid_out().windows.len(),
        forall|i: int|
            0 <= i < m.configures().len() ==> #[trigger] m.configures()[i] == (Configure {
                surface: m.laid_out().windows[i].surface,
                geometry: m.laid_out().windows[i].geometry,
            }),
{
}

/// Once a surface has had its initial configure it stays configured through
/// every later step: a layout, a commit of any surface, a new surface, the
/// removal of another one.
pub proof fn lemma_configured_never_reverts(m: StateModel, s: u64, t: u64)
    requires
        m.wf(),
        m.tracks(s),
        m.window(s).configured,
    ensures
        m.laid_out().tracks(s) && m.laid_out().window(s).configured,
        m.committed(t).tracks(s) && m.committed(t).window(s).configured,
        !m.tracks(t) ==> m.with_window(t).tracks(s) && m.with_window(t).window(s).configured,
        m.tracks(t) && t != s ==> m.without(t).tracks(s) && m.without(t).window(s).configured,
{
    let i = m.index_of(s);
    lemma_laid_out_wf(m);
    lemma_index_of(m.laid_out(), s, i);
    if m.tracks(t) {
        lemma_commit_configures_once(m, t);
        let c = m.committed(t);
        assert(c.windows[i].surface == s);
        lemma_index_of(c, s, i);
    }
    if !m.tracks(t) {
        lemma_with_window_wf(m, t);
        lemma_index_of(m.with_window(t), s, i);
    }
    if t != s && m.tracks(t) {
        let j = m.index_of(t);
        let w = m.without(t);
        lemma_without_wf(m, t);
        let k = if i < j { i } else { i - 1 };
        assert(w.windows[k] == m.windows[i]);
        lemma_index_of(w, s, k);
    }
}

} // verus!
