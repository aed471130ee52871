//! Linear reward curves for member counts, activity and attendance.

use vstd::prelude::*;

verus! {

/// Parameters of a linear reward curve: milestone `m` is reached at
/// `user_count_base + m * user_count_icrement` users, and pays
/// `points_base + users * points_slope` points.
#[derive(Clone, Copy, Debug)]
pub struct LinearReward {
    pub total_milestones: u64,
    pub user_count_base: u64,
    pub user_count_icrement: u64,
    pub points_base: u64,
    pub points_slope: u64,
}

/// The three reward curves in use.
#[derive(Clone, Copy, Debug)]
pub struct RewardAmounts {
    pub group_member_count_rewards: LinearReward,
    pub group_activity_rewards: LinearReward,
    pub event_attendee_rewards: LinearReward,
}

pub const GROUP_MEMBER_COUNT_TOTAL_MILESTONES: u64 = 20;
pub const USER_COUNT_BASE: u64 = 25;
pub const USER_COUNT_SLOPE: u64 = 25;
pub const POINTS_BASE: u64 = 0;
pub const POINTS_SLOPE: u64 = 2;

pub const GROUP_ACTIVITY_TOTAL_MILESTONES: u64 = 20;
pub const ACTIVITY_COUNT_BASE: u64 = 5;
pub const ACTIVITY_COUNT_SLOPE: u64 = 5;
pub const ACTIVITY_POINTS_BASE: u64 = 0;
pub const ACTIVITY_POINTS_SLOPE: u64 = 2;

pub const EVENT_ATTENDEE_TOTAL_MILESTONES: u64 = 20;
pub const ATTENDEE_COUNT_BASE: u64 = 10;
pub const ATTENDEE_COUNT_SLOPE: u64 = 20;
pub const ATTENDEE_POINTS_BASE: u64 = 0;
pub const ATTENDEE_POINTS_SLOPE: u64 = 2;

impl LinearReward {
    pub open spec fn spec_user_count(self, milestone: int) -> int {
        self.user_count_base + milestone * self.user_count_icrement
    }

    pub open spec fn spec_points(self, milestone: int) -> int {
        self.points_base + self.spec_user_count(milestone) * self.points_slope
    }

    /// The `i`-th point of the curve, for `i` below `total_milestones`.
    pub open spec fn spec_graph(self) -> Seq<(u64, u64)> {
        Seq::new(
            self.total_milestones as nat,
            |i: int| (self.spec_user_count(i) as u64, self.spec_points(i) as u64),
        )
    }

    /// Every point of the curve fits in `u64`.
    pub open spec fn graph_fits(self) -> bool {
        self.total_milestones == 0 || (self.spec_user_count(self.total_milestones - 1) <= u64::MAX
            && self.spec_points(self.total_milestones - 1) <= u64::MAX)
    }

    pub fn new(
        total_milestones: u64,
        user_count_base: u64,
        user_count_icrement: u64,
        points_base: u64,
        points_slope: u64,
    ) -> (r: Self)
        ensures
            r == (LinearReward {
                total_milestones,
                user_count_base,
                user_count_icrement,
                points_base,
                points_slope,
            }),
    {
        LinearReward {
            total_milestones,
            user_count_base,
            user_count_icrement,
            points_base,
            points_slope,
        }
    }

    pub fn user_count_from_milestone(&self, milestone: u64) -> (r: u64)
        requires
            self.spec_user_count(milestone as int) <= u64::MAX,
        ensures
            r == self.spec_user_count(milestone as int),
    {
        proof {
            assert(milestone * self.user_count_icrement <= self.spec_user_count(milestone as int))
                by (nonlinear_arith);
        }
        self.user_count_base + milestone * self.user_count_icrement
    }

    pub fn points_from_milestone(&self, milestone: u64) -> (r: u64)
        requires
            self.spec_points(milestone as int) <= u64::MAX,
        ensures
            r == self.spec_points(milestone as int),
    {
        let ghost uc = self.spec_user_count(milestone as int);
        proof {
            assert(milestone * self.user_count_icrement >= 0) by (nonlinear_arith);
            assert(uc * self.points_slope >= 0) by (nonlinear_arith)
                requires uc >= 0;
            lemma_mul_le_sum(milestone as int, self.user_count_icrement as int, self.user_count_base as int);
            lemma_mul_le_sum(uc, self.points_slope as int, self.points_base as int);
            if self.points_slope > 0 {
                assert(uc <= uc * self.points_slope) by (nonlinear_arith)
                    requires uc >= 0, self.points_slope >= 1;
            } else {
                assert(self.user_count_icrement * milestone >= 0) by (nonlinear_arith);
            }
        }
        let user_count = if self.points_slope == 0 {
            0
        } else {
            self.user_count_from_milestone(milestone)
        };
        proof {
            if self.points_slope == 0 {
                assert(uc * 0 == 0);
            }
        }
        self.points_base + user_count * self.points_slope
    }

    /// The milestone reached with `user_count` users, rounded down.
    pub fn milestone_from_user_count(&self, user_count: u64) -> (r: u64)
        requires
            user_count >= self.user_count_base,
            self.user_count_icrement > 0,
        ensures
            r == (user_count - self.user_count_base) / (self.user_count_icrement as int),
    {
        (user_count - self.user_count_base) / self.user_count_icrement
    }

    /// The curve as `(users, points)` pairs, one for each milestone.
    pub fn graph(&self) -> (r: Vec<(u64, u64)>)
        requires
            self.graph_fits(),
        ensures
            r@ == self.spec_graph(),
    {
        let mut graph: Vec<(u64, u64)> = Vec::new();
        let mut i: u64 = 0;
        while i < self.total_milestones
            invariant
                i <= self.total_milestones,
                self.graph_fits(),
                graph@ == self.spec_graph().take(i as int),
            decreases self.total_milestones - i,
        {
            proof {
                lemma_points_monotone(*self, i as int, self.total_milestones - 1);
            }
            let user_count = self.user_count_from_milestone(i);
            let points = self.points_from_milestone(i);
            graph.push((user_count, points));
            i = i + 1;
            proof {
                assert(graph@ =~= self.spec_graph().take(i as int));
            }
        }
        proof {
            assert(graph@ =~= self.spec_graph());
        }
        graph
    }
}

proof fn lemma_mul_le_sum(a: int, b: int, c: int)
    requires
        a >= 0,
        b >= 0,
        c >= 0,
    ensures
        a * b <= c + a * b,
        a * b >= 0,
{
    assert(a * b >= 0) by (nonlinear_arith)
        requires a >= 0, b >= 0;
}

proof fn lemma_points_monotone(r: LinearReward, i: int, j: int)
    requires
        0 <= i <= j,
    ensures
        0 <= r.spec_user_count(i) <= r.spec_user_count(j),
        0 <= r.spec_points(i) <= r.spec_points(j),
{
    let ui = r.spec_user_count(i);
    let uj = r.spec_user_count(j);
    assert(0 <= i * r.user_count_icrement <= j * r.user_count_icrement) by (nonlinear_arith)
        requires 0 <= i <= j, r.user_count_icrement >= 0;
    assert(0 <= ui * r.points_slope <= uj * r.points_slope) by (nonlinear_arith)
        requires 0 <= ui <= uj, r.points_slope >= 0;
}

impl RewardAmounts {
    pub fn new(
        group_member_count_rewards: LinearReward,
        group_activity_rewards: LinearReward,
        event_attendee_rewards: LinearReward,
    ) -> (r: Self)
        ensures
            r == (RewardAmounts {
                group_member_count_rewards,
                group_activity_rewards,
                event_attendee_rewards,
            }),
    {
        RewardAmounts { group_member_count_rewards, group_activity_rewards, event_attendee_rewards }
    }

    pub open spec fn spec_default() -> RewardAmounts {
        RewardAmounts {
            group_member_count_rewards: LinearReward {
                total_milestones: GROUP_MEMBER_COUNT_TOTAL_MILESTONES,
                user_count_base: USER_COUNT_BASE,
                user_count_icrement: USER_COUNT_SLOPE,
                points_base: POINTS_BASE,
                points_slope: POINTS_SLOPE,
            },
            group_activity_rewards: LinearReward {
                total_milestones: GROUP_ACTIVITY_TOTAL_MILESTONES,
                user_count_base: ACTIVITY_COUNT_BASE,
                user_count_icrement: ACTIVITY_COUNT_SLOPE,
                points_base: ACTIVITY_POINTS_BASE,
                points_slope: ACTIVITY_POINTS_SLOPE,
            },
            event_attendee_rewards: LinearReward {
                total_milestones: EVENT_ATTENDEE_TOTAL_MILESTONES,
                user_count_base: ATTENDEE_COUNT_BASE,
                user_count_icrement: ATTENDEE_COUNT_SLOPE,
                points_base: ATTENDEE_POINTS_BASE,
                points_slope: ATTENDEE_POINTS_SLOPE,
            },
        }
    }

    /// The curves that the reward functions below use.
    pub fn standard() -> (r: Self)
        ensures
            r == Self::spec_default(),
    {
        RewardAmounts::new(
            LinearReward::new(
                GROUP_MEMBER_COUNT_TOTAL_MILESTONES,
                USER_COUNT_BASE,
                USER_COUNT_SLOPE,
                POINTS_BASE,
                POINTS_SLOPE,
            ),
            LinearReward::new(
                GROUP_ACTIVITY_TOTAL_MILESTONES,
                ACTIVITY_COUNT_BASE,
                ACTIVITY_COUNT_SLOPE,
                ACTIVITY_POINTS_BASE,
                ACTIVITY_POINTS_SLOPE,
            ),
            LinearReward::new(
                EVENT_ATTENDEE_TOTAL_MILESTONES,
                ATTENDEE_COUNT_BASE,
                ATTENDEE_COUNT_SLOPE,
                ATTENDEE_POINTS_BASE,
                ATTENDEE_POINTS_SLOPE,
            ),
        )
    }
}

/// Points for reaching a member-count milestone.
pub fn member_count_points_from_milestone(milestone: u64) -> (r: u64)
    requires
        POINTS_BASE + (USER_COUNT_BASE + milestone * USER_COUNT_SLOPE) * POINTS_SLOPE <= u64::MAX,
    ensures
        r == POINTS_BASE + (USER_COUNT_BASE + milestone * USER_COUNT_SLOPE) * POINTS_SLOPE,
{
    RewardAmounts::standard().group_member_count_rewards.points_from_milestone(milestone)
}

/// Points for reaching a member-activity milestone.
pub fn member_activity_points_from_milestone(milestone: u64) -> (r: u64)
    requires
        ACTIVITY_POINTS_BASE + (ACTIVITY_COUNT_BASE + milestone * ACTIVITY_COUNT_SLOPE) * ACTIVITY_POINTS_SLOPE
            <= u64::MAX,
    ensures
        r == ACTIVITY_POINTS_BASE + (ACTIVITY_COUNT_BASE + milestone * ACTIVITY_COUNT_SLOPE)
            * ACTIVITY_POINTS_SLOPE,
{
    RewardAmounts::standard().group_activity_rewards.points_from_milestone(milestone)
}

/// Points for reaching an event-attendee milestone.
pub fn event_attendee_points_from_milestone(milestone: u64) -> (r: u64)
    requires
        ATTENDEE_POINTS_BASE + (ATTENDEE_COUNT_BASE + milestone * ATTENDEE_COUNT_SLOPE) * ATTENDEE_POINTS_SLOPE
            <= u64::MAX,
    ensures
        r == ATTENDEE_POINTS_BASE + (ATTENDEE_COUNT_BASE + milestone * ATTENDEE_COUNT_SLOPE)
            * ATTENDEE_POINTS_SLOPE,
{
    RewardAmounts::standard().event_attendee_rewards.points_from_milestone(milestone)
}

/// The member-count milestone reached with `user_count` members.
pub fn member_count_milestone_from_user_count(user_count: u64) -> (r: u64)
    requires
        user_count >= USER_COUNT_BASE,
    ensures
        r == (user_count - USER_COUNT_BASE) / (USER_COUNT_SLOPE as int),
{
    RewardAmounts::standard().group_member_count_rewards.milestone_from_user_count(user_count)
}

/// The member-activity milestone reached with `user_count` active members.
pub fn member_activity_milestone_from_user_count(user_count: u64) -> (r: u64)
    requires
        user_count >= ACTIVITY_COUNT_BASE,
    ensures
        r == (user_count - ACTIVITY_COUNT_BASE) / (ACTIVITY_COUNT_SLOPE as int),
{
    RewardAmounts::standard().group_activity_rewards.milestone_from_user_count(user_count)
}

/// The event-attendee milestone reached with `user_count` attendees.
pub fn event_attendee_milestone_from_user_count(user_count: u64) -> (r: u64)
    requires
        user_count >= ATTENDEE_COUNT_BASE,
    ensures
        r == (user_count - ATTENDEE_COUNT_BASE) / (ATTENDEE_COUNT_SLOPE as int),
{
    RewardAmounts::standard().event_attendee_rewards.milestone_from_user_count(user_count)
}

/// The member-count curve, one `(members, points)` pair per milestone.
pub fn graph_member_count_rewards() -> (r: Vec<(u64, u64)>)
    ensures
        r@ == RewardAmounts::spec_default().group_member_count_rewards.spec_graph(),
{
    RewardAmounts::standard().group_member_count_rewards.graph()
}

/// The member-activity curve, one `(members, points)` pair per milestone.
pub fn graph_member_activity_rewards() -> (r: Vec<(u64, u64)>)
    ensures
        r@ == RewardAmounts::spec_default().group_activity_rewards.spec_graph(),
{
    RewardAmounts::standard().group_activity_rewards.graph()
}

/// The event-attendee curve, one `(attendees, points)` pair per milestone.
pub fn graph_event_attendee_rewards() -> (r: Vec<(u64, u64)>)
    ensures
        r@ == RewardAmounts::spec_default().event_attendee_rewards.spec_graph(),
{
    RewardAmounts::standard().event_attendee_rewards.graph()
}

} // verus!
