//! Item chrome text: a label shaped once at its base size and painted at the item's zoom.
//!
//! A label is shaped once and kept across frames and items; what is kept is swept by the frame,
//! so a label that stopped showing is dropped.
use vstd::prelude::*;

use crate::table::Table;

verus! {

/// Which shaped labels are kept, by the digest of text, font and base size.
#[derive(Debug)]
pub struct ChromeCache {
    /// The generation each label was last used in.
    touched: Table<u64>,
    generation: u64,
    frame: Option<u64>,
}

/// The labels kept, in the model.
pub struct Labels {
    pub touched: Map<u128, u64>,
    pub generation: u64,
    pub frame: Option<u64>,
}

impl View for ChromeCache {
    type V = Labels;

    closed spec fn view(&self) -> Labels {
        Labels {
            touched: self.touched.deep_view(),
            generation: self.generation,
            frame: self.frame,
        }
    }
}

/// The generation after `g`.
pub open spec fn next_generation(g: u64) -> u64 {
    if g == u64::MAX {
        0
    } else {
        (g + 1) as u64
    }
}

/// The oldest generation whose labels are kept.
pub open spec fn keep_after(g: u64) -> u64 {
    if g < 2 {
        0
    } else {
        (g - 2) as u64
    }
}

impl Labels {
    /// Nothing is kept.
    pub open spec fn blank() -> Labels {
        Labels { touched: Map::empty(), generation: 0, frame: None }
    }

    /// Labels not used in the last two generations are dropped; a generation is a frame where
    /// frames are counted, else one label.
    pub open spec fn then_sweep(self, frame: Option<u64>) -> Labels {
        if frame is Some && self.frame == frame {
            self
        } else {
            let generation = next_generation(self.generation);
            Labels {
                touched: Map::new(
                    |key: u128|
                        self.touched.contains_key(key) && self.touched[key] >= keep_after(
                            generation,
                        ),
                    |key: u128| self.touched[key],
                ),
                generation,
                frame: if frame is Some {
                    frame
                } else {
                    self.frame
                },
            }
        }
    }

    /// A label is used: what is old is swept, and this one is new again.
    pub open spec fn then_use(self, key: u128, frame: Option<u64>) -> Labels {
        let swept = self.then_sweep(frame);
        Labels { touched: swept.touched.insert(key, swept.generation), ..swept }
    }
}

impl ChromeCache {
    /// Nothing is kept.
    pub fn new() -> (r: ChromeCache)
        ensures
            r@ == Labels::blank(),
    {
        ChromeCache { touched: Table::new(), generation: 0, frame: None }
    }

    /// Drop labels not used in the last two generations (a generation is a frame when the frames
    /// are counted, else one label).
    pub fn sweep(&mut self, frame: Option<u64>)
        ensures
            final(self)@ == old(self)@.then_sweep(frame),
    {
        if let Some(f) = frame {
            if let Some(seen) = self.frame {
                if seen == f {
                    return;
                }
            }
            self.frame = frame;
        }
        self.generation = if self.generation == u64::MAX {
            0
        } else {
            self.generation + 1
        };
        let keep: u64 = if self.generation < 2 {
            0
        } else {
            self.generation - 2
        };
        let keys = self.touched.keys();
        let ghost was = self.touched.deep_view();
        let ghost generation = self.generation;
        let mut i: usize = 0;
        while i < keys.len()
            invariant
                i <= keys@.len(),
                keep == keep_after(generation),
                self.generation == generation,
                self.frame == (if frame is Some {
                    frame
                } else {
                    old(self).frame
                }),
                forall|k: u128| #[trigger] keys@.contains(k) <==> was.contains_key(k),
                forall|k: u128| #[trigger]
                    self.touched.deep_view().contains_key(k) ==> was.contains_key(k)
                        && self.touched.deep_view()[k] == was[k],
                forall|k: u128| #[trigger]
                    was.contains_key(k) && was[k] >= keep
                        ==> self.touched.deep_view().contains_key(k),
                forall|j: int|
                    0 <= j < i && was[#[trigger] keys@[j]] < keep
                        ==> !self.touched.deep_view().contains_key(keys@[j]),
            decreases keys.len() - i,
        {
            let key: u128 = keys[i];
            let stale = match self.touched.get(key) {
                Some(g) => *g < keep,
                None => false,
            };
            assert(keys@.contains(key));
            if stale {
                self.touched.take_out(key);
            }
            i += 1;
        }
        proof {
            let want = old(self)@.then_sweep(frame).touched;
            assert forall|k: u128| want.contains_key(k) <==> #[trigger]
                self.touched.deep_view().contains_key(k) by {
                if self.touched.deep_view().contains_key(k) {
                    assert(keys@.contains(k));
                    let j = choose|j: int| 0 <= j < keys@.len() && keys@[j] == k;
                    assert(was[keys@[j]] >= keep);
                }
            }
            assert(self.touched.deep_view() =~= want);
        }
    }

    /// A label with this digest is used on `frame`: whether it has to be shaped, for want of one
    /// kept.
    pub fn use_label(&mut self, key: u64, frame: Option<u64>) -> (r: bool)
        ensures
            final(self)@ == old(self)@.then_use(key as u128, frame),
            r == !old(self)@.then_sweep(frame).touched.contains_key(key as u128),
    {
        self.sweep(frame);
        let fresh = !self.touched.has(key as u128);
        self.touched.put(key as u128, self.generation);
        fresh
    }
}

/// A label used again on the same frame, or on one of the next two, is not shaped again.
pub proof fn law_a_label_in_use_is_shaped_once(labels: Labels, key: u128, a: u64, b: u64, c: u64)
    requires
        labels.generation < u64::MAX - 3,
    ensures
        ({
            let used = labels.then_use(key, Some(a));
            let later = used.then_sweep(Some(b));
            &&& used.then_sweep(Some(a)).touched.contains_key(key)
            &&& later.touched.contains_key(key)
            &&& later.then_sweep(Some(c)).touched.contains_key(key)
        }),
{
}

/// A label that three new frames did without is dropped.
pub proof fn law_a_label_out_of_use_is_dropped(
    labels: Labels,
    key: u128,
    a: u64,
    b: u64,
    c: u64,
    d: u64,
)
    requires
        labels.generation < u64::MAX - 4,
        a != b,
        b != c,
        c != d,
    ensures
        ({
            let used = labels.then_use(key, Some(a));
            let later = used.then_sweep(Some(b)).then_sweep(Some(c)).then_sweep(Some(d));
            !later.touched.contains_key(key)
        }),
{
}

/// Where the text is cut for the ellipsis: how many of its boundaries are kept.
pub open spec fn cut_at(whole: bool, fits: Seq<bool>) -> Option<int> {
    if whole || fits.len() == 0 {
        None
    } else {
        Some(last_fit(fits))
    }
}

/// The last boundary the ellipsis fits after, the first where it fits after none.
pub open spec fn last_fit(fits: Seq<bool>) -> int
    decreases fits.len(),
{
    if fits.len() <= 1 {
        0
    } else if fits.last() {
        fits.len() - 1
    } else {
        last_fit(fits.drop_last())
    }
}

/// The cut that fits the text and the ellipsis into its room, or `None` when the `whole` text
/// fits: how many glyphs are kept. `fits` says of each boundary, from the left, whether what
/// stands before it and the ellipsis fit.
pub fn cut(whole: bool, fits: &Vec<bool>) -> (r: Option<usize>)
    ensures
        match r {
            Some(keep) => cut_at(whole, fits@) == Some(keep as int),
            None => cut_at(whole, fits@) is None,
        },
{
    if whole || fits.len() == 0 {
        return None;
    }
    let mut n: usize = fits.len();
    assert(fits@.take(n as int) == fits@);
    while n > 1 && !fits[n - 1]
        invariant
            1 <= n <= fits@.len(),
            last_fit(fits@) == last_fit(fits@.take(n as int)),
        decreases n,
    {
        proof {
            let some = fits@.take(n as int);
            assert(some.last() == fits@[n - 1]);
            assert(some.drop_last() == fits@.take(n - 1));
        }
        n -= 1;
    }
    proof {
        let some = fits@.take(n as int);
        assert(some.last() == fits@[n - 1]);
    }
    Some(n - 1)
}

/// What is kept fits, unless nothing does, and nothing longer fits.
pub proof fn law_the_cut_is_the_longest_that_fits(fits: Seq<bool>)
    requires
        fits.len() > 0,
    ensures
        0 <= last_fit(fits) < fits.len(),
        fits[last_fit(fits)] || last_fit(fits) == 0,
        forall|i: int| last_fit(fits) < i < fits.len() ==> !fits[i],
    decreases fits.len(),
{
    if fits.len() > 1 && !fits.last() {
        let rest = fits.drop_last();
        law_the_cut_is_the_longest_that_fits(rest);
        assert forall|i: int| last_fit(fits) < i < fits.len() implies !fits[i] by {
            if i < rest.len() {
                assert(rest[i] == fits[i]);
            }
        }
        assert(rest[last_fit(rest)] == fits[last_fit(rest)]);
    }
}

} // verus!
