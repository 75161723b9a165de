//! Binary-tree rectangle packer used by the texture atlas.
//!
//! The tree is a guillotine packer: every unsplit, unused leaf is a free
//! rectangle. Inserting a rectangle walks the tree depth first and places the
//! rectangle at the top-left corner of the first free leaf that is large
//! enough, then splits the rest of that leaf into two free pieces that do not
//! intersect: when more width than height is left, a column to the right of
//! the rectangle and the strip under it (as wide as the width left over, but
//! no wider than the rectangle); otherwise a row under the rectangle and the
//! strip to its right. The pieces, the rectangles handed out and the
//! free rectangles never intersect one another.
//!
//! Seen from outside, a packer is a sequence of free rectangles (in the order
//! in which the walk visits them) and a multiset of handed-out rectangles.
use vstd::multiset::Multiset;
use vstd::prelude::*;

verus! {

broadcast use vstd::multiset::group_multiset_axioms;

/// An axis-aligned rectangle in pixel units.
#[derive(Debug, Clone, Copy, PartialEq, Eq, Structural)]
pub struct Rect {
    pub x: i32,
    pub y: i32,
    pub w: i32,
    pub h: i32,
}

/// Whether a free rectangle can hold a `rw` x `rh` request.
pub open spec fn fits(r: Rect, rw: int, rh: int) -> bool {
    r.w >= rw && r.h >= rh
}

/// Index of the first rectangle of `s` that can hold the request.
pub open spec fn first_fit(s: Seq<Rect>, rw: int, rh: int) -> Option<int>
    decreases s.len(),
{
    if s.len() == 0 {
        None
    } else if fits(s[0], rw, rh) {
        Some(0)
    } else {
        match first_fit(s.drop_first(), rw, rh) {
            Some(k) => Some(k + 1),
            None => None,
        }
    }
}

/// The free pieces left over when a `rw` x `rh` rectangle is cut from the
/// top-left corner of the free rectangle `f`: with more width than height
/// left, the strip under the rectangle (as wide as the width left over, but
/// no wider than the rectangle, so that it stays clear of the column) and
/// the full-height column to its right; otherwise the full-width row under
/// the rectangle and the strip to its right (as high as the rectangle).
pub open spec fn split_pieces(f: Rect, rw: int, rh: int) -> Seq<Rect> {
    let dw = f.w - rw;
    let dh = f.h - rh;
    if dw == 0 && dh == 0 {
        Seq::empty()
    } else if dw > dh {
        seq![
            Rect {
                x: f.x,
                y: (f.y + rh) as i32,
                w: (if f.w - rw <= rw { f.w - rw } else { rw }) as i32,
                h: (f.h - rh) as i32,
            },
            Rect { x: (f.x + rw) as i32, y: f.y, w: (f.w - rw) as i32, h: f.h },
        ]
    } else {
        seq![
            Rect { x: f.x, y: (f.y + rh) as i32, w: f.w, h: (f.h - rh) as i32 },
            Rect { x: (f.x + rw) as i32, y: f.y, w: (f.w - rw) as i32, h: rh as i32 },
        ]
    }
}

/// Free list after placing a `rw` x `rh` rectangle (first fit), together with
/// the position handed out, or `None` when no free rectangle can hold it.
pub open spec fn place(free: Seq<Rect>, rw: int, rh: int) -> (Seq<Rect>, Option<(i32, i32)>) {
    match first_fit(free, rw, rh) {
        None => (free, None),
        Some(k) => (
            free.take(k) + split_pieces(free[k], rw, rh) + free.skip(k + 1),
            Some((free[k].x, free[k].y)),
        ),
    }
}

/// Handed-out rectangles after a placement that returned `res`.
pub open spec fn place_used(used: Multiset<Rect>, res: Option<(i32, i32)>, rw: int, rh: int) -> Multiset<
    Rect,
> {
    match res {
        None => used,
        Some((x, y)) => used.insert(Rect { x, y, w: rw as i32, h: rh as i32 }),
    }
}

/// Coordinates of every free rectangle can be added without overflow.
pub open spec fn arith_ok(free: Seq<Rect>) -> bool {
    forall|i: int|
        0 <= i < free.len() ==> #[trigger] free[i].x + free[i].w <= i32::MAX && free[i].y + free[i].h
            <= i32::MAX
}

/// `r` lies inside the page `[0, pw) x [0, ph)`.
pub open spec fn in_page(r: Rect, pw: int, ph: int) -> bool {
    0 <= r.x && 0 <= r.y && r.x + r.w <= pw && r.y + r.h <= ph
}

/// The interiors of `a` and `b` intersect.
pub open spec fn overlap(a: Rect, b: Rect) -> bool {
    &&& a.w > 0 && a.h > 0 && b.w > 0 && b.h > 0
    &&& a.x < b.x + b.w && b.x < a.x + a.w
    &&& a.y < b.y + b.h && b.y < a.y + a.h
}

/// `a` is contained in `b`.
pub open spec fn inside(a: Rect, b: Rect) -> bool {
    b.x <= a.x && b.y <= a.y && a.x + a.w <= b.x + b.w && a.y + a.h <= b.y + b.h
}

/// No two free rectangles intersect, no two handed-out rectangles intersect,
/// and no handed-out rectangle intersects a free one.
pub open spec fn sound(free: Seq<Rect>, used: Multiset<Rect>) -> bool {
    &&& forall|i: int, j: int|
        0 <= i < free.len() && 0 <= j < free.len() && i != j ==> !overlap(
            #[trigger] free[i],
            #[trigger] free[j],
        )
    &&& forall|a: Rect, b: Rect|
        #[trigger] used.count(a) > 0 && #[trigger] used.count(b) > 0 && (a != b || used.count(a)
            >= 2) ==> !overlap(a, b)
    &&& forall|i: int, b: Rect|
        0 <= i < free.len() && #[trigger] used.count(b) > 0 ==> !overlap(#[trigger] free[i], b)
}

pub proof fn lemma_first_fit_props(s: Seq<Rect>, rw: int, rh: int)
    ensures
        match first_fit(s, rw, rh) {
            Some(k) => 0 <= k < s.len() && fits(s[k], rw, rh) && forall|j: int|
                0 <= j < k ==> !fits(#[trigger] s[j], rw, rh),
            None => forall|j: int| 0 <= j < s.len() ==> !fits(#[trigger] s[j], rw, rh),
        },
    decreases s.len(),
{
    if s.len() > 0 && !fits(s[0], rw, rh) {
        lemma_first_fit_props(s.drop_first(), rw, rh);
        match first_fit(s.drop_first(), rw, rh) {
            Some(k) => {
                assert forall|j: int| 0 <= j < k + 1 implies !fits(#[trigger] s[j], rw, rh) by {
                    if j > 0 {
                        assert(s[j] == s.drop_first()[j - 1]);
                    }
                }
            },
            None => {
                assert forall|j: int| 0 <= j < s.len() implies !fits(#[trigger] s[j], rw, rh) by {
                    if j > 0 {
                        assert(s[j] == s.drop_first()[j - 1]);
                    }
                }
            },
        }
    }
}

proof fn lemma_first_fit_append(a: Seq<Rect>, b: Seq<Rect>, rw: int, rh: int)
    ensures
        first_fit(a + b, rw, rh) == match first_fit(a, rw, rh) {
            Some(k) => Some(k),
            None => match first_fit(b, rw, rh) {
                Some(k) => Some(k + a.len()),
                None => None,
            },
        },
    decreases a.len(),
{
    if a.len() == 0 {
        assert(a + b =~= b);
    } else {
        assert((a + b)[0] == a[0]);
        if !fits(a[0], rw, rh) {
            assert((a + b).drop_first() =~= a.drop_first() + b);
            lemma_first_fit_append(a.drop_first(), b, rw, rh);
        }
    }
}

proof fn lemma_place_concat(lf: Seq<Rect>, rf: Seq<Rect>, rw: int, rh: int)
    ensures
        place(lf + rf, rw, rh) == if place(lf, rw, rh).1 is Some {
            (place(lf, rw, rh).0 + rf, place(lf, rw, rh).1)
        } else {
            (lf + place(rf, rw, rh).0, place(rf, rw, rh).1)
        },
{
    lemma_first_fit_append(lf, rf, rw, rh);
    lemma_first_fit_props(lf, rw, rh);
    lemma_first_fit_props(rf, rw, rh);
    let s = lf + rf;
    match first_fit(lf, rw, rh) {
        Some(k) => {
            assert(s[k] == lf[k]);
            assert(place(lf, rw, rh).0 + rf =~= s.take(k) + split_pieces(s[k], rw, rh) + s.skip(
                k + 1,
            ));
        },
        None => {
            match first_fit(rf, rw, rh) {
                Some(k) => {
                    assert(s[k + lf.len()] == rf[k]);
                    assert(lf + place(rf, rw, rh).0 =~= s.take(k + lf.len()) + split_pieces(
                        s[k + lf.len()],
                        rw,
                        rh,
                    ) + s.skip(k + lf.len() + 1));
                },
                None => {},
            }
        },
    }
}

proof fn lemma_arith_split(lf: Seq<Rect>, rf: Seq<Rect>)
    requires
        arith_ok(lf + rf),
    ensures
        arith_ok(lf),
        arith_ok(rf),
{
    assert forall|i: int| 0 <= i < lf.len() implies #[trigger] lf[i].x + lf[i].w <= i32::MAX
        && lf[i].y + lf[i].h <= i32::MAX by {
        assert(lf[i] == (lf + rf)[i]);
    }
    assert forall|i: int| 0 <= i < rf.len() implies #[trigger] rf[i].x + rf[i].w <= i32::MAX
        && rf[i].y + rf[i].h <= i32::MAX by {
        assert(rf[i] == (lf + rf)[i + lf.len()]);
    }
}

/// A node of the packing tree.
struct Node {
    left: Option<Box<Node>>,
    right: Option<Box<Node>>,
    x: i32,
    y: i32,
    w: i32,
    h: i32,
    split: bool,
    is_end: bool,
}

impl Node {
    spec fn rect(self) -> Rect {
        Rect { x: self.x, y: self.y, w: self.w, h: self.h }
    }

    spec fn opt_free(n: Option<Box<Node>>) -> Seq<Rect>
        decreases n,
    {
        match n {
            Some(b) => b.free_seq(),
            None => Seq::empty(),
        }
    }

    /// Free leaves, in depth-first order.
    spec fn free_seq(self) -> Seq<Rect>
        decreases self,
    {
        if self.split {
            Node::opt_free(self.left) + Node::opt_free(self.right)
        } else if self.is_end {
            Seq::empty()
        } else {
            seq![self.rect()]
        }
    }

    spec fn opt_used(n: Option<Box<Node>>) -> Multiset<Rect>
        decreases n,
    {
        match n {
            Some(b) => b.used(),
            None => Multiset::empty(),
        }
    }

    /// Handed-out rectangles.
    spec fn used(self) -> Multiset<Rect>
        decreases self,
    {
        let own = if self.is_end {
            Multiset::empty().insert(self.rect())
        } else {
            Multiset::empty()
        };
        if self.split {
            own.add(Node::opt_used(self.left)).add(Node::opt_used(self.right))
        } else {
            own
        }
    }

    spec fn opt_wf(n: Option<Box<Node>>) -> bool
        decreases n,
    {
        match n {
            Some(b) => b.wf(),
            None => true,
        }
    }

    /// Unsplit nodes have no children.
    spec fn wf(self) -> bool
        decreases self,
    {
        &&& !self.split ==> self.left is None && self.right is None
        &&& Node::opt_wf(self.left)
        &&& Node::opt_wf(self.right)
    }

    fn leaf(x: i32, y: i32, w: i32, h: i32, split: bool, is_end: bool) -> (n: Node)
        ensures
            n.x == x && n.y == y && n.w == w && n.h == h,
            n.split == split && n.is_end == is_end,
            n.left is None && n.right is None,
    {
        Node { left: None, right: None, x, y, w, h, split, is_end }
    }

    fn insert_node(&mut self, rect_w: i32, rect_h: i32) -> (res: Option<(i32, i32)>)
        requires
            0 <= rect_w,
            0 <= rect_h,
            old(self).wf(),
            arith_ok(old(self).free_seq()),
        ensures
            final(self).wf(),
            final(self).rect() == old(self).rect(),
            (final(self).free_seq(), res) == place(old(self).free_seq(), rect_w as int, rect_h as int),
            final(self).used() == place_used(old(self).used(), res, rect_w as int, rect_h as int),
        decreases *old(self),
    {
        if self.split {
            return self.insert_into_children(rect_w, rect_h);
        }
        if self.is_end || self.w < rect_w || self.h < rect_h {
            proof {
                if !self.is_end {
                    assert(old(self).free_seq() =~= seq![old(self).rect()]);
                    assert(first_fit(old(self).free_seq().drop_first(), rect_w as int, rect_h as int) is None);
                }
            }
            return None;
        }
        self.split_leaf(rect_w, rect_h)
    }

    fn insert_into_children(&mut self, rect_w: i32, rect_h: i32) -> (res: Option<(i32, i32)>)
        requires
            0 <= rect_w,
            0 <= rect_h,
            old(self).split,
            old(self).wf(),
            arith_ok(old(self).free_seq()),
        ensures
            final(self).wf(),
            final(self).rect() == old(self).rect(),
            (final(self).free_seq(), res) == place(old(self).free_seq(), rect_w as int, rect_h as int),
            final(self).used() == place_used(old(self).used(), res, rect_w as int, rect_h as int),
        decreases *old(self), 0nat,
    {
        let ghost rw = rect_w as int;
        let ghost rh = rect_h as int;
        let ghost lf = Node::opt_free(self.left);
        let ghost rf = Node::opt_free(self.right);
        let ghost lu = Node::opt_used(self.left);
        let ghost ru = Node::opt_used(self.right);
        let ghost own = if self.is_end {
            Multiset::empty().insert(self.rect())
        } else {
            Multiset::empty()
        };
        assert(old(self).free_seq() == lf + rf);
        assert(old(self).used() == own.add(lu).add(ru));
        proof {
            lemma_place_concat(lf, rf, rw, rh);
            lemma_arith_split(lf, rf);
        }
        let mut left_res: Option<(i32, i32)> = None;
        match self.left.take() {
            Some(mut left) => {
                left_res = left.insert_node(rect_w, rect_h);
                self.left = Some(left);
            },
            None => {},
        }
        let ghost nlu = Node::opt_used(self.left);
        assert((Node::opt_free(self.left), left_res) == place(lf, rw, rh));
        assert(nlu == place_used(lu, left_res, rw, rh));
        if left_res.is_some() {
            proof {
                assert(self.used() == own.add(nlu).add(ru));
                assert(self.used() =~= place_used(old(self).used(), left_res, rw, rh));
            }
            return left_res;
        }
        let mut right_res: Option<(i32, i32)> = None;
        match self.right.take() {
            Some(mut right) => {
                right_res = right.insert_node(rect_w, rect_h);
                self.right = Some(right);
            },
            None => {},
        }
        proof {
            let nru = Node::opt_used(self.right);
            assert((Node::opt_free(self.right), right_res) == place(rf, rw, rh));
            assert(nru == place_used(ru, right_res, rw, rh));
            assert(self.used() == own.add(nlu).add(nru));
            assert(self.used() =~= place_used(old(self).used(), right_res, rw, rh));
        }
        right_res
    }

    fn split_leaf(&mut self, rect_w: i32, rect_h: i32) -> (res: Option<(i32, i32)>)
        requires
            0 <= rect_w <= old(self).w,
            0 <= rect_h <= old(self).h,
            !old(self).split,
            !old(self).is_end,
            old(self).wf(),
            arith_ok(old(self).free_seq()),
        ensures
            final(self).wf(),
            final(self).rect() == old(self).rect(),
            (final(self).free_seq(), res) == place(old(self).free_seq(), rect_w as int, rect_h as int),
            final(self).used() == place_used(old(self).used(), res, rect_w as int, rect_h as int),
    {
        let ghost rw = rect_w as int;
        let ghost rh = rect_h as int;
        assert(old(self).free_seq() =~= seq![old(self).rect()]);
        assert(old(self).free_seq()[0] == old(self).rect());
        assert(old(self).free_seq()[0].x + old(self).free_seq()[0].w <= i32::MAX);
        assert(old(self).free_seq()[0].y + old(self).free_seq()[0].h <= i32::MAX);
        assert(old(self).used() =~= Multiset::empty());
        assert(first_fit(seq![old(self).rect()], rw, rh) == Some(0int));
        assert(old(self).free_seq().take(0) =~= Seq::<Rect>::empty());
        assert(old(self).free_seq().skip(1) =~= Seq::<Rect>::empty());
        self.split = true;

        if self.w == rect_w && self.h == rect_h {
            self.is_end = true;
            assert(self.free_seq() =~= Seq::<Rect>::empty());
            assert(self.used() =~= Multiset::empty().insert(self.rect()));
            return Some((self.x, self.y));
        }
        let dw = self.w - rect_w;
        let dh = self.h - rect_h;

        let mut left_node;
        let down_node;
        let right_node;

        if dw > dh {
            left_node = Node::leaf(self.x, self.y, self.w, self.h - rect_h, true, false);
            let strip_w = if dw <= rect_w { dw } else { rect_w };
            down_node = Node::leaf(self.x, self.y + rect_h, strip_w, self.h - rect_h, false, false);
            right_node = Node::leaf(self.x + rect_w, self.y, self.w - rect_w, self.h, false, false);
        } else {
            left_node = Node::leaf(self.x, self.y, rect_w, self.h, true, false);
            down_node = Node::leaf(self.x, self.y + rect_h, self.w, self.h - rect_h, false, false);
            right_node = Node::leaf(self.x + rect_w, self.y, self.w - rect_w, rect_h, false, false);
        }

        let rect_x = right_node.x - rect_w;
        let rect_y = down_node.y - rect_h;

        let final_rect = Node::leaf(rect_x, rect_y, rect_w, rect_h, false, true);
        let ghost fr = final_rect.rect();
        let ghost dn = down_node.rect();
        let ghost rn = right_node.rect();
        proof {
            assert(final_rect.free_seq() =~= Seq::<Rect>::empty());
            assert(down_node.free_seq() =~= seq![dn]);
            assert(right_node.free_seq() =~= seq![rn]);
            assert(final_rect.used() =~= Multiset::empty().insert(fr));
            assert(down_node.used() =~= Multiset::empty());
            assert(right_node.used() =~= Multiset::empty());
        }

        left_node.left = Some(Box::new(final_rect));
        left_node.right = Some(Box::new(down_node));
        proof {
            assert(left_node.free_seq() =~= seq![dn]);
            assert(left_node.used() =~= Multiset::empty().insert(fr));
            assert(final_rect.wf());
            assert(down_node.wf());
            assert(right_node.wf());
            assert(left_node.wf());
        }
        self.left = Some(Box::new(left_node));
        self.right = Some(Box::new(right_node));
        proof {
            assert(self.free_seq() =~= seq![dn, rn]);
            assert(split_pieces(old(self).rect(), rw, rh) =~= seq![dn, rn]);
            assert(self.used() =~= Multiset::empty().insert(fr));
        }
        Some((rect_x, rect_y))
    }
}

/// A rectangle packer for one atlas page.
pub struct Packer {
    root: Node,
}

impl Packer {
    /// Width of the page.
    pub closed spec fn width(&self) -> int {
        self.root.w as int
    }

    /// Height of the page.
    pub closed spec fn height(&self) -> int {
        self.root.h as int
    }

    /// Free rectangles, in the order in which insertion tries them.
    pub closed spec fn free(&self) -> Seq<Rect> {
        self.root.free_seq()
    }

    /// Rectangles handed out so far.
    pub closed spec fn used(&self) -> Multiset<Rect> {
        self.root.used()
    }

    /// Internal consistency of the packer.
    pub closed spec fn wf(&self) -> bool {
        &&& self.root.wf()
        &&& arith_ok(self.free())
        &&& forall|i: int|
            0 <= i < self.free().len() ==> in_page(#[trigger] self.free()[i], self.width(), self.height())
        &&& forall|r: Rect| #[trigger] self.used().count(r) > 0 ==> in_page(r, self.width(), self.height())
        &&& sound(self.free(), self.used())
    }

    /// The free rectangles of a well-formed packer lie in its page and their
    /// far corners are representable.
    pub proof fn lemma_free_in_page(&self)
        requires
            self.wf(),
        ensures
            arith_ok(self.free()),
            forall|i: int|
                0 <= i < self.free().len() ==> in_page(#[trigger] self.free()[i], self.width(), self.height()),
    {
    }

    /// The rectangles a well-formed packer has handed out lie in its page
    /// and never intersect one another, nor any free rectangle.
    pub proof fn lemma_used_disjoint(&self)
        requires
            self.wf(),
        ensures
            forall|r: Rect| #[trigger] self.used().count(r) > 0 ==> in_page(r, self.width(), self.height()),
            sound(self.free(), self.used()),
            forall|a: Rect, b: Rect|
                #[trigger] self.used().count(a) > 0 && #[trigger] self.used().count(b) > 0 && (a != b
                    || self.used().count(a) >= 2) ==> !overlap(a, b),
    {
    }

    /// Creates an empty packer for a `w` x `h` page.
    pub fn new(w: i32, h: i32) -> (p: Self)
        ensures
            p.wf(),
            p.width() == w,
            p.height() == h,
            p.free() == seq![Rect { x: 0, y: 0, w, h }],
            p.used() == Multiset::<Rect>::empty(),
    {
        let p = Packer { root: Node::leaf(0, 0, w, h, false, false) };
        assert(p.free() =~= seq![Rect { x: 0, y: 0, w, h }]);
        assert(p.used() =~= Multiset::<Rect>::empty());
        proof {
            lemma_new_packer_sound(w, h);
        }
        p
    }

    /// Places a `w` x `h` rectangle at the top-left corner of the first free
    /// rectangle that can hold it, and returns that corner. The rectangle
    /// handed out lies in the page and intersects none handed out before.
    pub fn insert(&mut self, w: i32, h: i32) -> (res: Option<(i32, i32)>)
        requires
            old(self).wf(),
            0 <= w,
            0 <= h,
        ensures
            final(self).wf(),
            final(self).width() == old(self).width(),
            final(self).height() == old(self).height(),
            (final(self).free(), res) == place(old(self).free(), w as int, h as int),
            final(self).used() == place_used(old(self).used(), res, w as int, h as int),
            res matches Some((x, y)) ==> 0 <= x && 0 <= y && x + w <= old(self).width() && y + h
                <= old(self).height(),
            res matches Some((x, y)) ==> forall|b: Rect|
                #[trigger] old(self).used().count(b) > 0 ==> !overlap(Rect { x, y, w, h }, b),
    {
        let ghost old_free = self.free();
        let res = self.root.insert_node(w, h);
        proof {
            lemma_place_in_page(old_free, w as int, h as int, self.width(), self.height());
            lemma_first_fit_props(old_free, w as int, h as int);
            lemma_placed_rect_disjoint_from_used(old_free, old(self).used(), w, h);
            lemma_place_keeps_sound(old_free, old(self).used(), w, h);
            assert forall|r: Rect| #[trigger] self.used().count(r) > 0 implies in_page(
                r,
                self.width(),
                self.height(),
            ) by {
                if old(self).used().count(r) == 0 {
                    assert(res is Some);
                }
            }
        }
        res
    }
}

pub proof fn lemma_place_in_page(free: Seq<Rect>, rw: int, rh: int, pw: int, ph: int)
    requires
        0 <= rw,
        0 <= rh,
        arith_ok(free),
        forall|i: int| 0 <= i < free.len() ==> in_page(#[trigger] free[i], pw, ph),
    ensures
        arith_ok(place(free, rw, rh).0),
        forall|i: int|
            0 <= i < place(free, rw, rh).0.len() ==> in_page(#[trigger] place(free, rw, rh).0[i], pw, ph),
        place(free, rw, rh).1 matches Some((x, y)) ==> in_page(
            Rect { x, y, w: rw as i32, h: rh as i32 },
            pw,
            ph,
        ),
{
    lemma_first_fit_props(free, rw, rh);
    match first_fit(free, rw, rh) {
        None => {},
        Some(k) => {
            let f = free[k];
            let p = split_pieces(f, rw, rh);
            let nf = place(free, rw, rh).0;
            assert(nf == free.take(k) + p + free.skip(k + 1));
            assert forall|i: int| 0 <= i < nf.len() implies #[trigger] nf[i].x + nf[i].w
                <= i32::MAX && nf[i].y + nf[i].h <= i32::MAX && in_page(nf[i], pw, ph) by {
                if i < k {
                    assert(nf[i] == free[i]);
                } else if i < k + p.len() {
                    assert(nf[i] == p[i - k]);
                } else {
                    assert(nf[i] == free[i - p.len() + 1]);
                }
            }
        },
    }
}

proof fn lemma_inside_no_overlap(a: Rect, f: Rect, b: Rect)
    requires
        inside(a, f),
        !overlap(f, b),
    ensures
        !overlap(a, b),
        !overlap(b, a),
{
}

proof fn lemma_pieces_geometry(f: Rect, rw: int, rh: int)
    requires
        0 <= rw <= f.w,
        0 <= rh <= f.h,
        f.x + f.w <= i32::MAX,
        f.y + f.h <= i32::MAX,
    ensures
        forall|i: int|
            0 <= i < split_pieces(f, rw, rh).len() ==> inside(#[trigger] split_pieces(f, rw, rh)[i], f)
                && !overlap(
                split_pieces(f, rw, rh)[i],
                Rect { x: f.x, y: f.y, w: rw as i32, h: rh as i32 },
            ),
        forall|i: int, j: int|
            0 <= i < split_pieces(f, rw, rh).len() && 0 <= j < split_pieces(f, rw, rh).len() && i != j
                ==> !overlap(#[trigger] split_pieces(f, rw, rh)[i], #[trigger] split_pieces(f, rw, rh)[j]),
{
}

/// A rectangle handed out by a placement on a sound packer intersects none
/// of the rectangles handed out before it.
pub proof fn lemma_placed_rect_disjoint_from_used(free: Seq<Rect>, used: Multiset<Rect>, rw: i32, rh: i32)
    requires
        sound(free, used),
        0 <= rw,
        0 <= rh,
    ensures
        place(free, rw as int, rh as int).1 matches Some((x, y)) ==> forall|b: Rect|
            #[trigger] used.count(b) > 0 ==> !overlap(Rect { x, y, w: rw, h: rh }, b),
{
    lemma_first_fit_props(free, rw as int, rh as int);
    if let Some(k) = first_fit(free, rw as int, rh as int) {
        let f = free[k];
        let n = Rect { x: f.x, y: f.y, w: rw, h: rh };
        assert forall|b: Rect| #[trigger] used.count(b) > 0 implies !overlap(n, b) by {
            assert(!overlap(free[k], b));
            lemma_inside_no_overlap(n, f, b);
        }
    }
}

/// Placement keeps a packer sound: free rectangles pairwise disjoint,
/// handed-out rectangles pairwise disjoint and disjoint from the free ones.
pub proof fn lemma_place_keeps_sound(free: Seq<Rect>, used: Multiset<Rect>, rw: i32, rh: i32)
    requires
        sound(free, used),
        arith_ok(free),
        0 <= rw,
        0 <= rh,
    ensures
        sound(
            place(free, rw as int, rh as int).0,
            place_used(used, place(free, rw as int, rh as int).1, rw as int, rh as int),
        ),
{
    let rwi = rw as int;
    let rhi = rh as int;
    lemma_first_fit_props(free, rwi, rhi);
    lemma_placed_rect_disjoint_from_used(free, used, rw, rh);
    if let Some(k) = first_fit(free, rwi, rhi) {
        let f = free[k];
        assert(f.x + f.w <= i32::MAX && f.y + f.h <= i32::MAX);
        let n = Rect { x: f.x, y: f.y, w: rw, h: rh };
        let p = split_pieces(f, rwi, rhi);
        let nf = place(free, rwi, rhi).0;
        let nu = used.insert(n);
        assert(nf == free.take(k) + p + free.skip(k + 1));
        assert(place_used(used, place(free, rwi, rhi).1, rwi, rhi) == nu);
        lemma_pieces_geometry(f, rwi, rhi);
        // every element of the new free list is an old free rectangle other
        // than f, or a piece of f
        assert forall|i: int| 0 <= i < nf.len() implies (i < k && #[trigger] nf[i] == free[i]) || (k
            <= i < k + p.len() && nf[i] == p[i - k]) || (k + p.len() <= i && nf[i] == free[i
            - p.len() + 1] && i - p.len() + 1 != k && 0 <= i - p.len() + 1 < free.len()) by {
            if i < k {
            } else if i < k + p.len() {
            } else {
            }
        }
        assert forall|i: int, j: int|
            0 <= i < nf.len() && 0 <= j < nf.len() && i != j implies !overlap(
            #[trigger] nf[i],
            #[trigger] nf[j],
        ) by {
            let oi = if i < k {
                i
            } else {
                i - p.len() + 1
            };
            let oj = if j < k {
                j
            } else {
                j - p.len() + 1
            };
            let pi = k <= i < k + p.len();
            let pj = k <= j < k + p.len();
            if pi && pj {
                assert(p[i - k] == nf[i]);
                assert(p[j - k] == nf[j]);
            } else if pi {
                assert(!overlap(free[oj], f));
                lemma_inside_no_overlap(nf[i], f, free[oj]);
            } else if pj {
                assert(!overlap(free[oi], f));
                lemma_inside_no_overlap(nf[j], f, free[oi]);
            } else {
                assert(nf[i] == free[oi]);
                assert(nf[j] == free[oj]);
            }
        }
        assert forall|a: Rect, b: Rect|
            #[trigger] nu.count(a) > 0 && #[trigger] nu.count(b) > 0 && (a != b || nu.count(a) >= 2)
                implies !overlap(a, b) by {
            if a == n && b == n {
                assert(used.count(n) > 0);
            } else if a == n {
                assert(used.count(b) > 0);
            } else if b == n {
                assert(used.count(a) > 0);
            } else {
                assert(used.count(a) > 0 && used.count(b) > 0);
            }
        }
        assert forall|i: int, b: Rect| 0 <= i < nf.len() && #[trigger] nu.count(b) > 0 implies !overlap(
            #[trigger] nf[i],
            b,
        ) by {
            let oi = if i < k {
                i
            } else {
                i - p.len() + 1
            };
            if k <= i < k + p.len() {
                assert(p[i - k] == nf[i]);
                if b != n {
                    assert(used.count(b) > 0);
                    assert(!overlap(f, b));
                    lemma_inside_no_overlap(nf[i], f, b);
                }
            } else {
                assert(nf[i] == free[oi]);
                if b == n {
                    assert(!overlap(free[oi], f));
                    lemma_inside_no_overlap(n, f, free[oi]);
                } else {
                    assert(used.count(b) > 0);
                }
            }
        }
    }
}

/// A new packer is sound: its one free rectangle meets nothing, and nothing
/// has been handed out.
pub proof fn lemma_new_packer_sound(w: i32, h: i32)
    ensures
        sound(seq![Rect { x: 0, y: 0, w, h }], Multiset::<Rect>::empty()),
{
}

} // verus!
