//! The window manager of the portfolio desktop: which project windows are
//! open, where they stand and in which stacking order.
use vstd::prelude::*;

verus! {

/// One project window on the desktop.
pub struct WindowState {
    pub game_id: String,
    pub open: bool,
    pub pos: (i32, i32),
    pub z_index: u32,
}

/// All project windows and the stacking counter that the next raise uses.
pub struct WindowManager {
    pub windows: Vec<WindowState>,
    pub z_counter: u32,
}

/// The index of the first window whose id is `id`.
pub open spec fn first_with_id(ws: Seq<WindowState>, id: Seq<char>) -> Option<int>
    decreases ws.len(),
{
    if ws.len() == 0 {
        None
    } else {
        match first_with_id(ws.drop_last(), id) {
            Some(i) => Some(i),
            None => if ws.last().game_id@ == id {
                Some(ws.len() - 1)
            } else {
                None
            },
        }
    }
}

/// The initial position of the `i`-th window: a diagonal cascade.
pub open spec fn cascade_pos(i: int) -> (i32, i32) {
    ((50 + 30 * i) as i32, (50 + 30 * i) as i32)
}

/// The ids of the windows, in order.
pub open spec fn ids_of(ws: Seq<WindowState>) -> Seq<Seq<char>> {
    ws.map_values(|w: WindowState| w.game_id@)
}

/// The windows that are open, in order.
pub open spec fn open_of(ws: Seq<WindowState>) -> Seq<WindowState>
    decreases ws.len(),
{
    if ws.len() == 0 {
        seq![]
    } else if ws.last().open {
        open_of(ws.drop_last()).push(ws.last())
    } else {
        open_of(ws.drop_last())
    }
}

/// The windows after opening the one of `id` at stacking index `z`.
pub open spec fn opened(ws: Seq<WindowState>, id: Seq<char>, z: u32) -> Seq<WindowState> {
    match first_with_id(ws, id) {
        Some(k) => ws.update(k, WindowState { open: true, z_index: z, ..ws[k] }),
        None => ws,
    }
}

/// The windows after raising the one of `id` to stacking index `z`.
pub open spec fn focused(ws: Seq<WindowState>, id: Seq<char>, z: u32) -> Seq<WindowState> {
    match first_with_id(ws, id) {
        Some(k) => ws.update(k, WindowState { z_index: z, ..ws[k] }),
        None => ws,
    }
}

/// The windows after closing the one of `id`.
pub open spec fn closed(ws: Seq<WindowState>, id: Seq<char>) -> Seq<WindowState> {
    match first_with_id(ws, id) {
        Some(k) => ws.update(k, WindowState { open: false, ..ws[k] }),
        None => ws,
    }
}

/// The windows after moving the one of `id` to `pos`.
pub open spec fn moved(ws: Seq<WindowState>, id: Seq<char>, pos: (i32, i32)) -> Seq<WindowState> {
    match first_with_id(ws, id) {
        Some(k) => ws.update(k, WindowState { pos, ..ws[k] }),
        None => ws,
    }
}

/// Every stacking index is at most `z`.
pub open spec fn stacked_below(ws: Seq<WindowState>, z: u32) -> bool {
    forall|j: int| 0 <= j < ws.len() ==> ws[j].z_index <= z
}

/// Facts about a found index.
pub proof fn lemma_first_with_id(ws: Seq<WindowState>, id: Seq<char>)
    ensures
        first_with_id(ws, id) matches Some(k) ==> 0 <= k < ws.len() && ws[k].game_id@ == id && (
        forall|j: int| 0 <= j < k ==> ws[j].game_id@ != id),
        first_with_id(ws, id) is None ==> forall|j: int| 0 <= j < ws.len() ==> ws[j].game_id@ != id,
    decreases ws.len(),
{
    if ws.len() > 0 {
        lemma_first_with_id(ws.drop_last(), id);
        assert(forall|j: int| 0 <= j < ws.len() - 1 ==> ws.drop_last()[j] == ws[j]);
    }
}

impl WindowState {
    fn duplicate(&self) -> (r: WindowState)
        ensures
            r == *self,
    {
        WindowState { game_id: self.game_id.clone(), open: self.open, pos: self.pos, z_index: self.z_index }
    }
}

impl WindowManager {
    /// Every window's stacking index is at most the counter.
    pub open spec fn wf(&self) -> bool {
        stacked_below(self.windows@, self.z_counter)
    }

    /// One closed window per id, cascaded from (50, 50) in steps of 30,
    /// all at stacking index 100, with the counter at 100.
    pub fn new(game_ids: Vec<String>) -> (wm: Self)
        requires
            game_ids.len() <= 71582787,
        ensures
            wm.windows.len() == game_ids.len(),
            forall|i: int|
                0 <= i < game_ids.len() ==> {
                    let w = #[trigger] wm.windows@[i];
                    &&& w.game_id@ == game_ids@[i]@
                    &&& !w.open
                    &&& w.pos == cascade_pos(i)
                    &&& w.z_index == 100
                },
            wm.z_counter == 100,
            wm.wf(),
    {
        let mut windows: Vec<WindowState> = Vec::new();
        let mut i: usize = 0;
        while i < game_ids.len()
            invariant
                i <= game_ids.len() <= 71582787,
                windows.len() == i,
                forall|k: int|
                    0 <= k < i ==> {
                        let w = #[trigger] windows@[k];
                        &&& w.game_id@ == game_ids@[k]@
                        &&& !w.open
                        &&& w.pos == cascade_pos(k)
                        &&& w.z_index == 100
                    },
            decreases game_ids.len() - i,
        {
            let off: i32 = 50 + (i as i32) * 30;
            windows.push(
                WindowState { game_id: game_ids[i].clone(), open: false, pos: (off, off), z_index: 100 },
            );
            i = i + 1;
        }
        WindowManager { windows, z_counter: 100 }
    }

    fn find_index(&self, game_id: &str) -> (r: Option<usize>)
        ensures
            first_with_id(self.windows@, game_id@) == (match r {
                Some(k) => Some(k as int),
                None => None,
            }),
            r matches Some(k) ==> k < self.windows.len(),
    {
        proof {
            lemma_first_with_id(self.windows@, game_id@);
        }
        let id = crate::text::chars_of(game_id);
        let mut i: usize = 0;
        while i < self.windows.len()
            invariant
                i <= self.windows.len(),
                id@ == game_id@,
                forall|j: int| 0 <= j < i ==> self.windows@[j].game_id@ != game_id@,
            decreases self.windows.len() - i,
        {
            proof {
                lemma_first_with_id(self.windows@, game_id@);
            }
            let wid = crate::text::chars_of(self.windows[i].game_id.as_str());
            if crate::text::chars_eq(wid.as_slice(), id.as_slice()) {
                return Some(i);
            }
            i = i + 1;
        }
        None
    }

    /// Opens the window of `game_id` and raises it above all others; the
    /// counter advances even when no window has that id.
    pub fn open_window(&mut self, game_id: &str)
        requires
            old(self).z_counter < u32::MAX,
        ensures
            final(self).z_counter == old(self).z_counter + 1,
            final(self).windows@ == opened(old(self).windows@, game_id@, final(self).z_counter),
    {
        self.z_counter = self.z_counter + 1;
        let z = self.z_counter;
        if let Some(k) = self.find_index(game_id) {
            let mut w = self.windows[k].duplicate();
            w.open = true;
            w.z_index = z;
            self.windows.set(k, w);
        }
        assert(self.windows@ =~= opened(old(self).windows@, game_id@, self.z_counter));
    }

    /// Raises the window of `game_id` above all others; the counter
    /// advances even when no window has that id.
    pub fn focus_window(&mut self, game_id: &str)
        requires
            old(self).z_counter < u32::MAX,
        ensures
            final(self).z_counter == old(self).z_counter + 1,
            final(self).windows@ == focused(old(self).windows@, game_id@, final(self).z_counter),
    {
        self.z_counter = self.z_counter + 1;
        let z = self.z_counter;
        if let Some(k) = self.find_index(game_id) {
            let mut w = self.windows[k].duplicate();
            w.z_index = z;
            self.windows.set(k, w);
        }
        assert(self.windows@ =~= focused(old(self).windows@, game_id@, self.z_counter));
    }

    /// Closes the window of `game_id`.
    pub fn close_window(&mut self, game_id: &str)
        ensures
            final(self).z_counter == old(self).z_counter,
            final(self).windows@ == closed(old(self).windows@, game_id@),
    {
        if let Some(k) = self.find_index(game_id) {
            let mut w = self.windows[k].duplicate();
            w.open = false;
            self.windows.set(k, w);
        }
        assert(self.windows@ =~= closed(old(self).windows@, game_id@));
    }

    /// Moves the window of `game_id` to `pos`.
    pub fn move_window(&mut self, game_id: &str, pos: (i32, i32))
        ensures
            final(self).z_counter == old(self).z_counter,
            final(self).windows@ == moved(old(self).windows@, game_id@, pos),
    {
        if let Some(k) = self.find_index(game_id) {
            let mut w = self.windows[k].duplicate();
            w.pos = pos;
            self.windows.set(k, w);
        }
        assert(self.windows@ =~= moved(old(self).windows@, game_id@, pos));
    }

    /// The open windows, in order.
    pub fn open_windows(&self) -> (r: Vec<WindowState>)
        ensures
            r@ == open_of(self.windows@),
    {
        let mut r: Vec<WindowState> = Vec::new();
        let mut i: usize = 0;
        while i < self.windows.len()
            invariant
                i <= self.windows.len(),
                r@ == open_of(self.windows@.take(i as int)),
            decreases self.windows.len() - i,
        {
            assert(self.windows@.take(i + 1).drop_last() =~= self.windows@.take(i as int));
            if self.windows[i].open {
                r.push(self.windows[i].duplicate());
            }
            i = i + 1;
        }
        assert(self.windows@.take(self.windows.len() as int) =~= self.windows@);
        r
    }
}

// ── Laws ────────────────────────────────────────────────────────

/// No operation adds, removes or renames a window: the ids stay as they were.
pub proof fn law_operations_keep_ids(ws: Seq<WindowState>, id: Seq<char>, z: u32, pos: (i32, i32))
    ensures
        ids_of(opened(ws, id, z)) == ids_of(ws),
        ids_of(focused(ws, id, z)) == ids_of(ws),
        ids_of(closed(ws, id)) == ids_of(ws),
        ids_of(moved(ws, id, pos)) == ids_of(ws),
{
    lemma_first_with_id(ws, id);
    assert(ids_of(opened(ws, id, z)) =~= ids_of(ws));
    assert(ids_of(focused(ws, id, z)) =~= ids_of(ws));
    assert(ids_of(closed(ws, id)) =~= ids_of(ws));
    assert(ids_of(moved(ws, id, pos)) =~= ids_of(ws));
}

/// Every operation keeps each stacking index at most the counter, given that
/// opening and raising use the advanced counter.
pub proof fn law_operations_keep_stacking_bound(
    ws: Seq<WindowState>,
    id: Seq<char>,
    z: u32,
    pos: (i32, i32),
)
    requires
        stacked_below(ws, z),
        z < u32::MAX,
    ensures
        stacked_below(opened(ws, id, (z + 1) as u32), (z + 1) as u32),
        stacked_below(focused(ws, id, (z + 1) as u32), (z + 1) as u32),
        stacked_below(closed(ws, id), z),
        stacked_below(moved(ws, id, pos), z),
{
    lemma_first_with_id(ws, id);
}

/// Opening or raising a window puts it strictly above every other window.
pub proof fn law_raised_window_is_on_top(ws: Seq<WindowState>, id: Seq<char>, z: u32)
    requires
        stacked_below(ws, z),
        z < u32::MAX,
        first_with_id(ws, id) is Some,
    ensures
        ({
            let k = first_with_id(ws, id)->0;
            let o = opened(ws, id, (z + 1) as u32);
            let f = focused(ws, id, (z + 1) as u32);
            &&& o[k].open
            &&& forall|j: int| 0 <= j < ws.len() && j != k ==> o[j].z_index < o[k].z_index
            &&& forall|j: int| 0 <= j < ws.len() && j != k ==> f[j].z_index < f[k].z_index
        }),
{
    lemma_first_with_id(ws, id);
}

/// Closing a window that opening has just opened leaves the same windows
/// open as before the two calls.
pub proof fn law_close_undoes_open(ws: Seq<WindowState>, id: Seq<char>, z: u32)
    requires
        first_with_id(ws, id) matches Some(k) ==> !ws[k].open,
    ensures
        open_of(closed(opened(ws, id, z), id)) == open_of(ws),
{
    lemma_first_with_id(ws, id);
    let o = opened(ws, id, z);
    lemma_first_with_id(o, id);
    match first_with_id(ws, id) {
        Some(k) => {
            assert(ids_of(o) =~= ids_of(ws));
            assert(first_with_id(o, id) == Some(k)) by {
                lemma_first_with_id(o, id);
                assert(o[k].game_id@ == id);
                assert(forall|j: int| 0 <= j < k ==> o[j] == ws[j]);
            }
            let c = closed(o, id);
            lemma_open_of_same_flags(c, ws);
        },
        None => {
            assert(first_with_id(o, id) is None);
        },
    }
}

/// Sequences of windows with the same open flags, where the open windows
/// are equal, have the same open windows.
proof fn lemma_open_of_same_flags(a: Seq<WindowState>, b: Seq<WindowState>)
    requires
        a.len() == b.len(),
        forall|j: int| 0 <= j < a.len() ==> a[j].open == b[j].open,
        forall|j: int| 0 <= j < a.len() && a[j].open ==> a[j] == b[j],
    ensures
        open_of(a) == open_of(b),
    decreases a.len(),
{
    if a.len() > 0 {
        lemma_open_of_same_flags(a.drop_last(), b.drop_last());
    }
}

/// Moving a window changes neither which windows are open nor their stacking.
pub proof fn law_move_keeps_stacking(ws: Seq<WindowState>, id: Seq<char>, pos: (i32, i32))
    ensures
        ({
            let m = moved(ws, id, pos);
            &&& m.len() == ws.len()
            &&& forall|j: int| 0 <= j < ws.len() ==> m[j].open == ws[j].open && m[j].z_index == ws[j].z_index
        }),
{
    lemma_first_with_id(ws, id);
}

} // verus!
