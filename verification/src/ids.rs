//! Identifiers shared across the backend, the client and the executor.
use vstd::prelude::*;

verus! {

/// Identifies a team.
#[derive(Debug, Clone)]
pub struct TeamId(pub String);

/// Identifies a user.
#[derive(Debug, Clone)]
pub struct UserId(pub String);

/// Identifies a submitted task.
#[derive(Debug, Clone)]
pub struct TaskId(pub String);

/// Identifies a test.
#[derive(Debug, Clone)]
pub struct TestId(pub String);

/// The issuer named in a token.
#[derive(Debug, Clone)]
pub struct JwtIssuer(pub String);

/// A resolved commit of a team repository.
#[derive(Debug, Clone)]
pub struct RevisionId(pub String);

impl View for TeamId {
    type V = Seq<char>;

    open spec fn view(&self) -> Seq<char> {
        self.0@
    }
}

impl View for UserId {
    type V = Seq<char>;

    open spec fn view(&self) -> Seq<char> {
        self.0@
    }
}

impl View for TaskId {
    type V = Seq<char>;

    open spec fn view(&self) -> Seq<char> {
        self.0@
    }
}

impl View for TestId {
    type V = Seq<char>;

    open spec fn view(&self) -> Seq<char> {
        self.0@
    }
}

impl View for JwtIssuer {
    type V = Seq<char>;

    open spec fn view(&self) -> Seq<char> {
        self.0@
    }
}

impl View for RevisionId {
    type V = Seq<char>;

    open spec fn view(&self) -> Seq<char> {
        self.0@
    }
}

impl TeamId {
    /// A copy of this id.
    pub fn duplicate(&self) -> (res: Self)
        ensures
            res@ == self@,
    {
        TeamId(self.0.clone())
    }
}

impl UserId {
    /// A copy of this id.
    pub fn duplicate(&self) -> (res: Self)
        ensures
            res@ == self@,
    {
        UserId(self.0.clone())
    }
}

impl TaskId {
    /// A copy of this id.
    pub fn duplicate(&self) -> (res: Self)
        ensures
            res@ == self@,
    {
        TaskId(self.0.clone())
    }
}

impl TestId {
    /// A copy of this id.
    pub fn duplicate(&self) -> (res: Self)
        ensures
            res@ == self@,
    {
        TestId(self.0.clone())
    }
}

} // verus!
