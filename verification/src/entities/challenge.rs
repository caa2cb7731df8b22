use vstd::prelude::*;

verus! {

/// The two kinds of challenge the ledger tracks.
#[derive(Debug, Copy, Clone, Eq, PartialEq, Structural)]
pub enum ChallengeType {
    Counter,
    DailyChallenge,
}

impl Default for ChallengeType {
    fn default() -> (r: Self)
        ensures
            r == ChallengeType::Counter,
    {
        ChallengeType::Counter
    }
}

/// A challenge as the interface presents it: the description carries the
/// resolved translation content.
#[derive(Debug)]
pub struct Challenge {
    pub id: String,
    pub title: String,
    pub category: String,
    pub challenge_type: ChallengeType,
    pub goal: i32,
    pub description: String,
}

pub ghost struct ChallengeV {
    pub id: Seq<char>,
    pub title: Seq<char>,
    pub category: Seq<char>,
    pub challenge_type: ChallengeType,
    pub goal: i32,
    pub description: Seq<char>,
}

impl View for Challenge {
    type V = ChallengeV;

    open spec fn view(&self) -> ChallengeV {
        ChallengeV {
            id: self.id@,
            title: self.title@,
            category: self.category@,
            challenge_type: self.challenge_type,
            goal: self.goal,
            description: self.description@,
        }
    }
}

impl DeepView for Challenge {
    type V = ChallengeV;

    open spec fn deep_view(&self) -> ChallengeV {
        self.view()
    }
}

impl Clone for Challenge {
    fn clone(&self) -> (r: Self)
        ensures
            r@ == self@,
    {
        Challenge {
            id: self.id.clone(),
            title: self.title.clone(),
            category: self.category.clone(),
            challenge_type: self.challenge_type,
            goal: self.goal,
            description: self.description.clone(),
        }
    }
}

impl Default for Challenge {
    fn default() -> (r: Self)
        ensures
            r@.id.len() == 0,
            r@.title.len() == 0,
            r@.category.len() == 0,
            r@.challenge_type == ChallengeType::Counter,
            r@.goal == 0,
            r@.description.len() == 0,
    {
        Challenge {
            id: String::new(),
            title: String::new(),
            category: String::new(),
            challenge_type: ChallengeType::Counter,
            goal: 0,
            description: String::new(),
        }
    }
}

/// One row of the progress ledger, keyed by `(user_id, challenge_id)`.
#[derive(Debug)]
pub struct UserChallenge {
    pub user_id: String,
    pub challenge_id: String,
    pub progress: i32,
    pub updated_at: Option<u64>,
}

pub ghost struct UserChallengeV {
    pub user_id: Seq<char>,
    pub challenge_id: Seq<char>,
    pub progress: i32,
    pub updated_at: Option<u64>,
}

impl View for UserChallenge {
    type V = UserChallengeV;

    open spec fn view(&self) -> UserChallengeV {
        UserChallengeV {
            user_id: self.user_id@,
            challenge_id: self.challenge_id@,
            progress: self.progress,
            updated_at: self.updated_at,
        }
    }
}

impl DeepView for UserChallenge {
    type V = UserChallengeV;

    open spec fn deep_view(&self) -> UserChallengeV {
        self.view()
    }
}

impl Clone for UserChallenge {
    fn clone(&self) -> (r: Self)
        ensures
            r@ == self@,
    {
        UserChallenge {
            user_id: self.user_id.clone(),
            challenge_id: self.challenge_id.clone(),
            progress: self.progress,
            updated_at: self.updated_at,
        }
    }
}

} // verus!
