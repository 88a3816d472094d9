//! Cohort selection: which trajectories enter a training set, and with
//! which label.

use crate::double::{Double, ONE_BITS};
use crate::model::UserTrajectory;
use vstd::prelude::*;

verus! {

/// The cohort of an author.
#[derive(Clone, Copy, Debug, PartialEq, Eq, Structural)]
pub enum Label {
    Positive,
    Negative,
}

impl Label {
    /// The training target of the label: one for the positive cohort, zero
    /// for the negative one.
    pub fn target(self) -> (target: Double)
        ensures
            target.bits == match self {
                Label::Positive => ONE_BITS,
                Label::Negative => 0,
            },
    {
        match self {
            Label::Positive => Double::one(),
            Label::Negative => Double::from_bits(0),
        }
    }
}

/// A trajectory that was selected, by its position among those offered.
#[derive(Clone, Copy, Debug, PartialEq, Eq, Structural)]
pub struct Selection {
    pub index: usize,
    pub label: Label,
}

/// No offered trajectory belongs to either cohort.
#[derive(Clone, Copy, Debug, PartialEq, Eq, Structural)]
pub struct EmptyTrainingSet;

/// The two cohorts, each a list of author handles.
#[derive(Debug)]
pub struct Cohorts {
    pub positive: Vec<String>,
    pub negative: Vec<String>,
}

/// Whether `handle` is one of `handles`.
pub open spec fn lists(handles: Seq<String>, handle: Seq<char>) -> bool {
    exists|i: int| 0 <= i < handles.len() && (#[trigger] handles[i])@ == handle
}

/// The label of a handle: positive if the positive cohort lists it,
/// otherwise negative if the negative cohort does, otherwise none.
pub open spec fn label_for(cohorts: Cohorts, handle: Seq<char>) -> Option<Label> {
    if lists(cohorts.positive@, handle) {
        Some(Label::Positive)
    } else if lists(cohorts.negative@, handle) {
        Some(Label::Negative)
    } else {
        None
    }
}

/// The selections among `handles`: each handle that has a label, by its
/// position, in order. Positions are machine integers, so the lemmas below
/// speak of as many handles as a vector can hold.
pub open spec fn selections(cohorts: Cohorts, handles: Seq<Seq<char>>) -> Seq<Selection>
    decreases handles.len(),
{
    if handles.len() == 0 {
        Seq::empty()
    } else {
        let earlier = selections(cohorts, handles.drop_last());
        match label_for(cohorts, handles.last()) {
            Some(label) => earlier.push(Selection { index: (handles.len() - 1) as usize, label }),
            None => earlier,
        }
    }
}

/// The handles of the trajectories, in order.
pub open spec fn handles_of<P>(trajectories: Seq<UserTrajectory<P>>) -> Seq<Seq<char>> {
    Seq::new(trajectories.len(), |i: int| trajectories[i].user_screen_name@)
}

/// Every selection points at an offered handle and carries the label of
/// that handle.
pub proof fn lemma_selections_are_labelled(cohorts: Cohorts, handles: Seq<Seq<char>>)
    requires
        handles.len() <= usize::MAX,
    ensures
        selections(cohorts, handles).len() <= handles.len(),
        forall|k: int|
            0 <= k < selections(cohorts, handles).len() ==> {
                let s = #[trigger] selections(cohorts, handles)[k];
                &&& s.index < handles.len()
                &&& label_for(cohorts, handles[s.index as int]) == Some(s.label)
            },
    decreases handles.len(),
{
    if handles.len() > 0 {
        let front = handles.drop_last();
        lemma_selections_are_labelled(cohorts, front);
        let earlier = selections(cohorts, front);
        let now = selections(cohorts, handles);
        assert forall|k: int| 0 <= k < now.len() implies {
            let s = #[trigger] now[k];
            &&& s.index < handles.len()
            &&& label_for(cohorts, handles[s.index as int]) == Some(s.label)
        } by {
            if k < earlier.len() {
                let s = earlier[k];
                assert(now[k] == s);
                assert(front[s.index as int] == handles[s.index as int]);
            }
        }
    }
}

/// Selections stand in the order in which the handles were offered.
pub proof fn lemma_selections_ascend(cohorts: Cohorts, handles: Seq<Seq<char>>, j: int, k: int)
    requires
        handles.len() <= usize::MAX,
        0 <= j < k < selections(cohorts, handles).len(),
    ensures
        selections(cohorts, handles)[j].index < selections(cohorts, handles)[k].index,
    decreases handles.len(),
{
    if handles.len() > 0 {
        let front = handles.drop_last();
        let earlier = selections(cohorts, front);
        if k < earlier.len() {
            lemma_selections_ascend(cohorts, front, j, k);
        } else {
            lemma_selections_are_labelled(cohorts, front);
            assert(earlier[j].index < front.len());
        }
    }
}

/// Every offered handle that has a label is selected.
pub proof fn lemma_selections_are_complete(cohorts: Cohorts, handles: Seq<Seq<char>>, i: int)
    requires
        handles.len() <= usize::MAX,
        0 <= i < handles.len(),
        label_for(cohorts, handles[i]).is_some(),
    ensures
        exists|k: int|
            0 <= k < selections(cohorts, handles).len() && (#[trigger] selections(
                cohorts,
                handles,
            )[k]).index == i,
    decreases handles.len(),
{
    let front = handles.drop_last();
    let earlier = selections(cohorts, front);
    let now = selections(cohorts, handles);
    if i < front.len() {
        lemma_selections_are_complete(cohorts, front, i);
        let k = choose|k: int| 0 <= k < earlier.len() && (#[trigger] earlier[k]).index == i;
        assert(now[k].index == i);
    } else {
        assert(now[now.len() - 1].index == i);
    }
}

impl Cohorts {
    /// Whether one of `handles` is `handle`.
    fn holds(handles: &Vec<String>, handle: &String) -> (found: bool)
        ensures
            found == lists(handles@, handle@),
    {
        let mut i: usize = 0;
        while i < handles.len()
            invariant
                i <= handles.len(),
                forall|j: int| 0 <= j < i ==> (#[trigger] handles@[j])@ != handle@,
            decreases handles.len() - i,
        {
            if handles[i] == *handle {
                return true;
            }
            i += 1;
        }
        false
    }

    /// The label of an author, by handle.
    pub fn label_of(&self, handle: &String) -> (label: Option<Label>)
        ensures
            label == label_for(*self, handle@),
    {
        if Self::holds(&self.positive, handle) {
            Some(Label::Positive)
        } else if Self::holds(&self.negative, handle) {
            Some(Label::Negative)
        } else {
            None
        }
    }

    /// Selects the trajectories whose author belongs to a cohort, each with
    /// its label, in the order in which they were offered. Fails when none
    /// does.
    pub fn select<P>(&self, trajectories: &Vec<UserTrajectory<P>>) -> (selected: Result<
        Vec<Selection>,
        EmptyTrainingSet,
    >)
        ensures
            selected.is_ok() <==> exists|i: int|
                0 <= i < trajectories@.len() && label_for(
                    *self,
                    (#[trigger] trajectories@[i]).user_screen_name@,
                ).is_some(),
            match selected {
                Ok(chosen) => {
                    &&& chosen@ == selections(*self, handles_of(trajectories@))
                    &&& forall|k: int|
                        0 <= k < chosen@.len() ==> {
                            let s = #[trigger] chosen@[k];
                            &&& s.index < trajectories@.len()
                            &&& label_for(*self, trajectories@[s.index as int].user_screen_name@)
                                == Some(s.label)
                        }
                    &&& forall|j: int, k: int|
                        0 <= j < k < chosen@.len() ==> chosen@[j].index < chosen@[k].index
                    &&& forall|i: int|
                        0 <= i < trajectories@.len() && label_for(
                            *self,
                            (#[trigger] trajectories@[i]).user_screen_name@,
                        ).is_some() ==> exists|k: int|
                            0 <= k < chosen@.len() && (#[trigger] chosen@[k]).index == i
                },
                Err(_) => true,
            },
    {
        let ghost handles = handles_of(trajectories@);
        let mut chosen: Vec<Selection> = Vec::new();
        let mut i: usize = 0;
        assert(handles.take(0) =~= Seq::<Seq<char>>::empty());
        while i < trajectories.len()
            invariant
                i <= trajectories.len(),
                handles == handles_of(trajectories@),
                chosen@ == selections(*self, handles.take(i as int)),
            decreases trajectories.len() - i,
        {
            proof {
                assert(handles.take(i + 1).drop_last() =~= handles.take(i as int));
                assert(handles.take(i + 1).last() == trajectories@[i as int].user_screen_name@);
            }
            match self.label_of(&trajectories[i].user_screen_name) {
                Some(label) => {
                    chosen.push(Selection { index: i, label });
                },
                None => {},
            }
            i += 1;
        }
        proof {
            assert(handles.take(trajectories.len() as int) =~= handles);
            lemma_selections_are_labelled(*self, handles);
            assert forall|j: int, k: int| 0 <= j < k < chosen@.len() implies chosen@[j].index
                < chosen@[k].index by {
                lemma_selections_ascend(*self, handles, j, k);
            }
            assert forall|i: int|
                0 <= i < trajectories@.len() && label_for(
                    *self,
                    (#[trigger] trajectories@[i]).user_screen_name@,
                ).is_some() implies exists|k: int|
                0 <= k < chosen@.len() && (#[trigger] chosen@[k]).index == i by {
                assert(handles[i] == trajectories@[i].user_screen_name@);
                lemma_selections_are_complete(*self, handles, i);
            }
            if chosen@.len() > 0 {
                let s = chosen@[0];
                assert(handles[s.index as int] == trajectories@[s.index as int].user_screen_name@);
            }
        }
        if chosen.len() == 0 {
            Err(EmptyTrainingSet)
        } else {
            Ok(chosen)
        }
    }
}

} // verus!
