use vstd::prelude::*;
use crate::utils::sorted_ids::{strictly_sorted, sorted_distinct};

verus! {

/// The rating a user gave a picture.
#[derive(Debug, Clone, Copy, PartialEq, Eq, Structural)]
pub struct Rating {
    pub user_id: i32,
    pub picture_id: i64,
    pub rating: i16,
}

/// The sum of the ratings' values.
pub open spec fn ratings_sum(s: Seq<Rating>) -> int
    decreases s.len(),
{
    if s.len() == 0 {
        0
    } else {
        ratings_sum(s.drop_last()) + s.last().rating
    }
}

/// Integer division rounding toward zero, as Rust divides.
pub open spec fn div_toward_zero(a: int, b: int) -> int {
    if a >= 0 {
        a / b
    } else {
        -((-a) / b)
    }
}

/// The average value of ratings, rounded toward zero; `None` without ratings.
pub open spec fn average_of(s: Seq<Rating>) -> Option<i16> {
    if s.len() == 0 {
        None
    } else {
        Some(div_toward_zero(ratings_sum(s), s.len() as int) as i16)
    }
}

/// The ratings given by the user `user_id`.
pub open spec fn ratings_by(s: Seq<Rating>, user_id: i32) -> Seq<Rating> {
    s.filter(|r: Rating| r.user_id == user_id)
}

/// The ids of the users, other than `user_id`, that gave one of the ratings.
pub open spec fn other_raters(s: Seq<Rating>, user_id: i32) -> Set<i32> {
    Set::new(|u: i32| u != user_id && exists|k: int| 0 <= k < s.len() && #[trigger] s[k].user_id == u)
}

proof fn lemma_sum_bounds(s: Seq<Rating>)
    ensures
        s.len() * (i16::MIN as int) <= ratings_sum(s) <= s.len() * (i16::MAX as int),
    decreases s.len(),
{
    if s.len() > 0 {
        lemma_sum_bounds(s.drop_last());
    }
}

/// The number of ratings and every running sum of their values fit in an `i32`.
pub open spec fn countable(s: Seq<Rating>) -> bool {
    &&& s.len() <= i32::MAX
    &&& forall|k: int| 0 <= k <= s.len() ==> i32::MIN <= #[trigger] ratings_sum(s.subrange(0, k)) <= i32::MAX
}

impl Rating {
    /// The average value of ratings, rounded toward zero; `None` without ratings.
    pub fn average_ratings_value(ratings: &[Rating]) -> (r: Option<i16>)
        requires
            countable(ratings@),
        ensures
            r == average_of(ratings@),
    {
        if ratings.len() == 0 {
            return None;
        }
        let mut sum: i64 = 0;
        let mut i: usize = 0;
        while i < ratings.len()
            invariant
                i <= ratings@.len(),
                countable(ratings@),
                sum == ratings_sum(ratings@.subrange(0, i as int)),
            decreases ratings.len() - i,
        {
            proof {
                assert(ratings@.subrange(0, i + 1).drop_last() =~= ratings@.subrange(0, i as int));
                assert(i32::MIN <= ratings_sum(ratings@.subrange(0, i + 1)) <= i32::MAX);
            }
            sum = sum + ratings[i].rating as i64;
            i = i + 1;
        }
        assert(ratings@.subrange(0, ratings@.len() as int) =~= ratings@);
        let n = ratings.len() as i64;
        proof {
            lemma_sum_bounds(ratings@);
        }
        let avg: i64 = if sum >= 0 {
            assert(sum / n <= 32767) by (nonlinear_arith)
                requires 0 <= sum <= n * 32767, n > 0;
            sum / n
        } else {
            let neg: i64 = -sum;
            assert(neg / n <= 32768) by (nonlinear_arith)
                requires 0 < neg <= n * 32768, n > 0;
            -(neg / n)
        };
        Some(avg as i16)
    }

    /// Rating statistics of the ratings `all_ratings` of a user, `user_id`,
    /// and of its friends: the average of the user's ratings, the average
    /// of all ratings, and the other users that rated, in increasing order.
    pub fn get_mixed_pictures_ratings(all_ratings: &Vec<Rating>, user_id: i32) -> (r: (Option<i16>, Option<i16>, Vec<i32>))
        requires
            countable(all_ratings@),
            countable(ratings_by(all_ratings@, user_id)),
        ensures
            r.0 == average_of(ratings_by(all_ratings@, user_id)),
            r.1 == average_of(all_ratings@),
            strictly_sorted(r.2@),
            r.2@.to_set() == other_raters(all_ratings@, user_id),
    {
        let mut user_ratings: Vec<Rating> = Vec::new();
        let mut others: Vec<i32> = Vec::new();
        let ghost s = all_ratings@;
        let ghost pred = |x: Rating| x.user_id == user_id;
        assert(s.subrange(0, 0).filter(pred) =~= Seq::<Rating>::empty());
        let mut i: usize = 0;
        while i < all_ratings.len()
            invariant
                i <= s.len(),
                s == all_ratings@,
                pred == (|x: Rating| x.user_id == user_id),
                user_ratings@ == s.subrange(0, i as int).filter(pred),
                forall|u: i32| #[trigger] others@.contains(u) <==> u != user_id
                    && exists|k: int| 0 <= k < i && #[trigger] s[k].user_id == u,
            decreases s.len() - i,
        {
            let x = all_ratings[i];
            proof {
                reveal(Seq::filter);
                let prev = s.subrange(0, i as int).filter(pred);
                assert(s.subrange(0, i + 1).drop_last() =~= s.subrange(0, i as int));
                assert(s.subrange(0, i + 1).filter(pred) == if pred(x) { prev.push(x) } else { prev });
            }
            let ghost before = others@;
            if x.user_id == user_id {
                user_ratings.push(x);
            } else {
                others.push(x.user_id);
            }
            proof {
                assert forall|u: i32| #[trigger] others@.contains(u) <==> u != user_id
                    && exists|k: int| 0 <= k < i + 1 && #[trigger] s[k].user_id == u by {
                    if others@.contains(u) && !before.contains(u) {
                        let w = choose|w: int| 0 <= w < others@.len() && others@[w] == u;
                        if w < before.len() {
                            assert(before[w] == u);
                        }
                        assert(s[i as int].user_id == u);
                    }
                    if before.contains(u) {
                        let w = choose|w: int| 0 <= w < before.len() && before[w] == u;
                        assert(others@[w] == u);
                    }
                    if u != user_id && exists|k: int| 0 <= k < i + 1 && #[trigger] s[k].user_id == u {
                        let k = choose|k: int| 0 <= k < i + 1 && #[trigger] s[k].user_id == u;
                        if k == i {
                            assert(others@[others@.len() - 1] == u);
                        }
                    }
                }
            }
            i = i + 1;
        }
        assert(s.subrange(0, s.len() as int) =~= s);
        proof {
            broadcast use vstd::seq_lib::group_filter_ensures;
        }
        let average_user_rating = Rating::average_ratings_value(user_ratings.as_slice());
        let average_global_rating = Rating::average_ratings_value(all_ratings.as_slice());
        let rating_users = sorted_distinct(&others);
        assert(others@.to_set() =~= other_raters(s, user_id));
        (average_user_rating, average_global_rating, rating_users)
    }
}

} // verus!
