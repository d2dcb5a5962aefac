//! The diff buffer: a frame, and the memory of what was last sent to the
//! display.

use crate::diff::{
    change_at, changes_before, frame_changes, lemma_change_at_coordinates, lemma_walk_step,
    pixel_changes, shown_after, uniform_cell, walk_len, Cell, PixelChange,
};
use vstd::laws_eq::obeys_concrete_eq;
use vstd::prelude::*;

verus! {

/// A line of cells on a display that shows at most `L` of them, each `X`
/// pixels wide and `Y` pixels high, together with the memory of what the
/// display shows. No cell of another size can enter it.
pub struct PixelBuf<T, const X: usize, const Y: usize, const L: usize> {
    data: Vec<Cell<T, X, Y>>,
    prev: [Cell<T, X, Y>; L],
}

impl<T: Copy + PartialEq, const X: usize, const Y: usize, const L: usize> PixelBuf<T, X, Y, L> {
    /// The frame that the next walk renders.
    pub closed spec fn frame(&self) -> Seq<Cell<T, X, Y>> {
        self.data@
    }

    /// What the display shows, as far as the buffer knows.
    pub closed spec fn shown(&self) -> Seq<Cell<T, X, Y>> {
        self.prev@
    }

    /// The buffer remembers exactly `L` cells, all its life.
    pub proof fn lemma_shown_len(&self)
        ensures
            self.shown().len() == L,
    {
    }

    /// A buffer with an empty frame for a display that shows the default
    /// value of `T` everywhere: a dark one, where `T` is a number.
    pub fn new() -> (buf: Self) where T: Default
        ensures
            buf.frame() == Seq::<Cell<T, X, Y>>::empty(),
            exists|off: T|
                call_ensures(T::default, (), off) && buf.shown() == Seq::new(
                    L as nat,
                    |i: int| uniform_cell::<T, X, Y>(off),
                ),
    {
        Self::filled(T::default())
    }

    /// A buffer with an empty frame for a display that shows `off`
    /// everywhere.
    pub fn filled(off: T) -> (buf: Self)
        ensures
            buf.frame() == Seq::<Cell<T, X, Y>>::empty(),
            buf.shown() == Seq::new(L as nat, |i: int| uniform_cell::<T, X, Y>(off)),
    {
        PixelBuf { data: Vec::new(), prev: [[[off; X]; Y]; L] }
    }

    /// Replaces the frame; the memory of what is shown stays.
    pub fn set_frame(&mut self, frame: Vec<Cell<T, X, Y>>)
        ensures
            final(self).frame() == frame@,
            final(self).shown() == old(self).shown(),
    {
        self.data = frame;
    }

    /// The number of cells that a walk looks at: those of the frame, but
    /// no more than `L`.
    fn reach(&self) -> (n: usize)
        ensures
            n == walk_len(self.frame(), self.shown()),
    {
        if self.data.len() <= L {
            self.data.len()
        } else {
            L
        }
    }

    /// The changes that the next walk will hand out, in its order. Nothing
    /// is walked: the memory of what is shown stays as it is.
    ///
    /// The columns of `L` cells have to fit a `usize`, and `==` on `T` has
    /// to tell whether two values are the same, as it does for integers.
    #[verifier::loop_isolation(false)]
    pub fn pending_changes(&self) -> (out: Vec<PixelChange<T>>)
        requires
            X * L <= usize::MAX,
            obeys_concrete_eq::<T>(),
        ensures
            out@ == pixel_changes(self.frame(), self.shown()),
    {
        let ghost frame = self.frame();
        let ghost shown = self.shown();
        let n = self.reach();
        let mut out: Vec<PixelChange<T>> = Vec::new();
        let mut i: usize = 0;
        while i < n
            invariant
                i <= n,
                out@ == frame_changes(frame, shown, i as nat),
            decreases n - i,
        {
            let mut y: usize = 0;
            while y < Y
                invariant
                    i < n,
                    y <= Y,
                    out@ == changes_before(frame, shown, i as int, y as int, 0),
                decreases Y - y,
            {
                let mut x: usize = 0;
                while x < X
                    invariant
                        i < n,
                        y < Y,
                        x <= X,
                        out@ == changes_before(frame, shown, i as int, y as int, x as int),
                    decreases X - x,
                {
                    let v = self.data[i][y][x];
                    let same = self.prev[i][y][x] == v;
                    proof {
                        reveal(obeys_concrete_eq);
                        lemma_walk_step(frame, shown, i as int, y as int, x as int);
                        lemma_change_at_coordinates(
                            frame[i as int],
                            i as int,
                            y as int,
                            x as int,
                            L as nat,
                        );
                    }
                    if !same {
                        out.push((x + X * i, y, v));
                    }
                    x += 1;
                }
                y += 1;
            }
            i += 1;
        }
        out
    }

    /// Walks the frame, cell by cell, row by row, from left to right, as
    /// far as the buffer reaches: cells from number `L` on are left out.
    /// A pixel that is as the display shows it is passed over. One that
    /// differs is handed to `f`, with its column counted over all cells,
    /// its row and its value, and then remembered as shown.
    ///
    /// So `f` is called once for each change of `pixel_changes`, in that
    /// order, and has to accept each of them. Should `f` not come back
    /// from a call, the pixels handed out before it are remembered as
    /// shown and the others are not.
    ///
    /// The columns of `L` cells have to fit a `usize`, and `==` on `T` has
    /// to tell whether two values are the same, as it does for integers.
    #[verifier::loop_isolation(false)]
    pub fn foreach_px(&mut self, f: impl Fn(usize, usize, T))
        requires
            X * L <= usize::MAX,
            obeys_concrete_eq::<T>(),
            forall|k: int|
                0 <= k < pixel_changes(old(self).frame(), old(self).shown()).len()
                    ==> call_requires(
                    f,
                    #[trigger] pixel_changes(old(self).frame(), old(self).shown())[k],
                ),
        ensures
            final(self).frame() == old(self).frame(),
            final(self).shown() == shown_after(old(self).frame(), old(self).shown()),
            forall|k: int|
                0 <= k < pixel_changes(old(self).frame(), old(self).shown()).len()
                    ==> call_ensures(
                    f,
                    #[trigger] pixel_changes(old(self).frame(), old(self).shown())[k],
                    (),
                ),
    {
        let ghost frame = self.frame();
        let ghost shown = self.shown();
        let ghost all = pixel_changes(frame, shown);
        let ghost mut done: Seq<PixelChange<T>> = Seq::empty();
        let n = self.reach();
        let mut i: usize = 0;
        while i < n
            invariant
                i <= n,
                self.data@ == frame,
                forall|j: int| 0 <= j < i ==> self.prev@[j] == frame[j],
                forall|j: int| i <= j < L ==> self.prev@[j] == shown[j],
                done == frame_changes(frame, shown, i as nat),
                forall|k: int| 0 <= k < done.len() ==> call_ensures(f, #[trigger] done[k], ()),
            decreases n - i,
        {
            let cell = self.data[i];
            let mut y: usize = 0;
            while y < Y
                invariant
                    i < n,
                    y <= Y,
                    self.data@ == frame,
                    forall|j: int| 0 <= j < i ==> self.prev@[j] == frame[j],
                    forall|j: int| i < j < L ==> self.prev@[j] == shown[j],
                    forall|r: int| 0 <= r < y ==> self.prev@[i as int][r] == cell[r],
                    forall|r: int| y <= r < Y ==> self.prev@[i as int][r] == shown[i as int][r],
                    done == changes_before(frame, shown, i as int, y as int, 0),
                    forall|k: int|
                        0 <= k < done.len() ==> call_ensures(f, #[trigger] done[k], ()),
                decreases Y - y,
            {
                let mut x: usize = 0;
                while x < X
                    invariant
                        i < n,
                        y < Y,
                        x <= X,
                        self.data@ == frame,
                        forall|j: int| 0 <= j < i ==> self.prev@[j] == frame[j],
                        forall|j: int| i < j < L ==> self.prev@[j] == shown[j],
                        forall|r: int| 0 <= r < y ==> self.prev@[i as int][r] == cell[r],
                        forall|r: int|
                            y < r < Y ==> self.prev@[i as int][r] == shown[i as int][r],
                        forall|c: int|
                            0 <= c < x ==> self.prev@[i as int][y as int][c] == cell[y as int][c],
                        forall|c: int|
                            x <= c < X ==> self.prev@[i as int][y as int][c]
                                == shown[i as int][y as int][c],
                        done == changes_before(frame, shown, i as int, y as int, x as int),
                        forall|k: int|
                            0 <= k < done.len() ==> call_ensures(f, #[trigger] done[k], ()),
                    decreases X - x,
                {
                    let v = cell[y][x];
                    let same = self.prev[i][y][x] == v;
                    proof {
                        reveal(obeys_concrete_eq);
                        lemma_walk_step(frame, shown, i as int, y as int, x as int);
                        lemma_change_at_coordinates(
                            cell,
                            i as int,
                            y as int,
                            x as int,
                            L as nat,
                        );
                    }
                    if !same {
                        f(x + X * i, y, v);
                        self.prev[i][y][x] = v;
                        proof {
                            done = done.push(change_at(cell, i as int, y as int, x as int));
                        }
                    }
                    x += 1;
                }
                assert(self.prev@[i as int][y as int] =~= cell[y as int]);
                y += 1;
            }
            assert(self.prev@[i as int] =~= cell);
            i += 1;
        }
        assert(self.prev@ =~= shown_after(frame, shown));
    }

    /// Takes `frame` as the new frame and walks it as `foreach_px` does:
    /// `f` gets every pixel of it that differs from what the display
    /// shows, under the same conditions.
    pub fn render(&mut self, frame: Vec<Cell<T, X, Y>>, f: impl Fn(usize, usize, T))
        requires
            X * L <= usize::MAX,
            obeys_concrete_eq::<T>(),
            forall|k: int|
                0 <= k < pixel_changes(frame@, old(self).shown()).len() ==> call_requires(
                    f,
                    #[trigger] pixel_changes(frame@, old(self).shown())[k],
                ),
        ensures
            final(self).frame() == frame@,
            final(self).shown() == shown_after(frame@, old(self).shown()),
            forall|k: int|
                0 <= k < pixel_changes(frame@, old(self).shown()).len() ==> call_ensures(
                    f,
                    #[trigger] pixel_changes(frame@, old(self).shown())[k],
                    (),
                ),
    {
        self.set_frame(frame);
        self.foreach_px(f);
    }
}

} // verus!
