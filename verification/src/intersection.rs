use vstd::prelude::*;

verus! {

use crate::rational::Rat;
use crate::rational::Ratio;
use crate::rational::rle;
use crate::rational::rapprox;
use crate::rational::in_caps;
use crate::rational::lemma_rle_trans;
use crate::rational::lemma_rle_total;
use crate::sphere::Sphere;
use crate::sphere::SphereV;

/// Mathematical value of one ray-object intersection.
pub struct IntersectionV {
    pub time: Ratio,
    pub object: SphereV,
}

/// One intersection: the ray parameter and the object that was met.
#[derive(Debug)]
pub struct Intersection {
    pub time: Rat,
    pub object: Sphere,
}

impl View for Intersection {
    type V = IntersectionV;

    open spec fn view(&self) -> IntersectionV {
        IntersectionV { time: self.time@, object: self.object@ }
    }
}

impl Clone for Intersection {
    /// A copy denoting the same intersection.
    fn clone(&self) -> (r: Self)
        ensures
            r@ == self@,
    {
        Intersection { time: self.time, object: self.object.clone() }
    }
}

impl PartialEq for Intersection {
    /// Intersections agree when their ray parameters agree within the
    /// shared tolerance.
    fn eq(&self, other: &Self) -> (r: bool) {
        self.time.approx_eq(&other.time)
    }
}

impl vstd::std_specs::cmp::PartialEqSpecImpl for Intersection {
    open spec fn obeys_eq_spec() -> bool {
        true
    }

    open spec fn eq_spec(&self, other: &Intersection) -> bool {
        rapprox(self@.time, other@.time)
    }
}

/// The intersections of one ray, in order of discovery.
#[derive(Debug)]
pub struct Intersections {
    objects: Vec<Intersection>,
}

impl View for Intersections {
    type V = Seq<IntersectionV>;

    closed spec fn view(&self) -> Seq<IntersectionV> {
        Seq::new(self.objects@.len(), |k: int| self.objects@[k]@)
    }
}

impl Intersections {
    /// Every recorded ray parameter is a representable scalar.
    #[verifier::type_invariant]
    closed spec fn times_inv(self) -> bool {
        forall|k: int|
            0 <= k < self.objects@.len() ==> in_caps((#[trigger] self.objects@[k]).time@)
    }

    /// Gathers intersections in order of discovery.
    pub fn new(objects: Vec<Intersection>) -> (r: Intersections)
        requires
            forall|k: int| 0 <= k < objects@.len() ==> in_caps((#[trigger] objects@[k]).time@),
        ensures
            r@.len() == objects@.len(),
            forall|k: int| 0 <= k < objects@.len() ==> r@[k] == (#[trigger] objects@[k])@,
    {
        Intersections { objects }
    }

    /// How many intersections were found.
    pub fn len(&self) -> (r: usize)
        ensures
            r == self@.len(),
    {
        self.objects.len()
    }

    /// The intersection at the given position.
    pub fn get(&self, i: usize) -> (r: &Intersection)
        requires
            i < self@.len(),
        ensures
            r@ == self@[i as int],
    {
        &self.objects[i]
    }

    /// The hit: among the intersections with a nonnegative ray parameter,
    /// one with the least parameter; none when every parameter is
    /// negative.
    pub fn get_hit(&self) -> (r: Option<Intersection>)
        ensures
            r is None <==> (forall|k: int| 0 <= k < self@.len() ==> (#[trigger] self@[k]).time.n
                < 0),
            r matches Some(h) ==> {
                &&& exists|k: int|
                    0 <= k < self@.len() && h@ == #[trigger] self@[k] && self@[k].time.n >= 0
                &&& forall|k: int|
                    0 <= k < self@.len() && (#[trigger] self@[k]).time.n >= 0 ==> rle(
                        h@.time,
                        self@[k].time,
                    )
            },
    {
        proof {
            use_type_invariant(self);
        }
        let mut best: Option<usize> = None;
        let mut k: usize = 0;
        let n = self.objects.len();
        while k < n
            invariant
                0 <= k <= n,
                n == self@.len(),
                n == self.objects@.len(),
                self.times_inv(),
                best matches Some(b) ==> 0 <= b < k && self@[b as int].time.n >= 0,
                best matches Some(b) ==> forall|k2: int|
                    0 <= k2 < k && (#[trigger] self@[k2]).time.n >= 0 ==> rle(
                        self@[b as int].time,
                        self@[k2].time,
                    ),
                best is None ==> (forall|k2: int|
                    0 <= k2 < k ==> (#[trigger] self@[k2]).time.n < 0),
            decreases n - k,
        {
            let cur = &self.objects[k];
            if cur.time.is_nonneg() {
                match best {
                    None => {
                        best = Some(k);
                    },
                    Some(b) => {
                        let bt = &self.objects[b].time;
                        if cur.time.le(bt) {
                            proof {
                                let old_b = b as int;
                                assert forall|k2: int|
                                    0 <= k2 < k + 1 && (#[trigger] self@[k2]).time.n
                                        >= 0 implies rle(self@[k as int].time, self@[k2].time) by {
                                    if k2 < k {
                                        lemma_rle_trans(
                                            self@[k as int].time,
                                            self@[old_b].time,
                                            self@[k2].time,
                                        );
                                    }
                                }
                            }
                            best = Some(k);
                        } else {
                            proof {
                                lemma_rle_total(self@[k as int].time, self@[b as int].time);
                            }
                        }
                    },
                }
            }
            k = k + 1;
        }
        match best {
            None => None,
            Some(b) => {
                let chosen = self.objects[b].clone();
                Some(chosen)
            },
        }
    }
}

} // verus!
