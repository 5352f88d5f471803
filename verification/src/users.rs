//! Users, teams, their tokens, and the backend's configuration of them.
use vstd::prelude::*;
use crate::ids::{JwtIssuer, TeamId, UserId};
use crate::text::{concat3, same_text, strings_view};

verus! {

/// What a user may do.
#[derive(Debug, Clone, Copy, PartialEq, Eq, Structural)]
pub enum UserRole {
    Regular,
    Admin,
}

/// A user: their team, if any, their id and their name.
#[derive(Debug, Clone)]
pub struct User {
    pub team: Option<TeamId>,
    pub id: UserId,
    pub display_name: String,
}

/// The user that is signed in, as they see themselves.
#[derive(Debug, Clone)]
pub struct OwnUser {
    pub user: User,
}

/// A user as an admin sees them, with their role.
#[derive(Debug, Clone)]
pub struct FullUserForAdmin {
    pub user: OwnUser,
    pub role: UserRole,
}

impl FullUserForAdmin {
    /// The user without what only admins see.
    pub fn into_user(self) -> (res: User)
        ensures
            res == self.user.user,
    {
        self.user.user
    }
}

/// A team.
#[derive(Debug, Clone)]
pub struct Team {
    pub id: TeamId,
    pub display_name: String,
}

/// The token with which a team's CI talks to the backend.
#[derive(Debug, Clone)]
pub struct TeamIntegrationToken(pub String);

/// A user as the authentication sees them: their role and their data.
#[derive(Debug, Clone)]
pub struct UserForAuth {
    pub role: UserRole,
    pub user: User,
}

/// The claims of a token that the backend issues.
#[derive(Debug, Clone)]
pub struct CrowJwt {
    pub sub: UserId,
    pub exp: u64,
    pub iss: JwtIssuer,
    pub role: UserRole,
}

/// How long a token is valid, in seconds.
pub const JWT_VALIDITY_SECS: u64 = 86_400;

/// The issuer that the backend writes into its tokens.
pub const JWT_ISSUER: &'static str = "compilers";

/// The claims of a token for `user` with `role`, issued at `now_secs` (seconds since the epoch):
/// it expires a day later.
pub fn jwt_claims(user: UserId, role: UserRole, now_secs: u64) -> (res: CrowJwt)
    requires
        now_secs + JWT_VALIDITY_SECS <= u64::MAX,
    ensures
        res.sub == user,
        res.exp == now_secs + JWT_VALIDITY_SECS,
        res.iss@ == JWT_ISSUER@,
        res.role == role,
{
    CrowJwt { sub: user, exp: now_secs + JWT_VALIDITY_SECS, iss: JwtIssuer(String::from_str(JWT_ISSUER)), role }
}

/// The claims of an authenticated request: the user, their team (or none, with `T` an
/// `Option`), when the token expires, who issued it, and the user's current role.
#[derive(Debug, Clone)]
pub struct Claims<T> {
    pub sub: UserId,
    pub team: T,
    pub exp: u64,
    pub iss: JwtIssuer,
    pub role: UserRole,
}

impl<T> Claims<T> {
    /// Whether the user is an admin.
    pub fn is_admin(&self) -> (res: bool)
        ensures
            res == (self.role == UserRole::Admin),
    {
        self.role == UserRole::Admin
    }

    /// Whether there are claims and they are an admin's.
    pub fn is_admin_opt(claims: &Option<Claims<T>>) -> (res: bool)
        ensures
            res == (claims matches Some(c) && c.role == UserRole::Admin),
    {
        match claims {
            Some(c) => c.is_admin(),
            None => false,
        }
    }
}

/// Why a request was refused.
#[derive(Debug, Clone)]
pub enum WebError {
    Unauthorized,
    InvalidCredentials,
    NotFound,
    NamedNotFound { what: String },
    /// The user may not do the named action.
    NamedUnauthorized { action: String },
    NotInTeam,
    InternalError { message: String },
    Sqlx,
    /// An error of a request extractor, with its HTTP status and its code.
    FromHttp { http_code: u16, error_code: String },
}

impl WebError {
    /// The HTTP status of the answer.
    pub fn to_http_code(&self) -> (res: u16)
        ensures
            res == match *self {
                WebError::Unauthorized | WebError::InvalidCredentials | WebError::NamedUnauthorized { .. } => 401u16,
                WebError::NamedNotFound { .. } | WebError::NotFound => 404u16,
                WebError::NotInTeam => 403u16,
                WebError::FromHttp { http_code, .. } => http_code,
                WebError::Sqlx | WebError::InternalError { .. } => 500u16,
            },
    {
        match self {
            WebError::Unauthorized | WebError::InvalidCredentials | WebError::NamedUnauthorized { .. } => 401,
            WebError::NamedNotFound { .. } | WebError::NotFound => 404,
            WebError::NotInTeam => 403,
            WebError::FromHttp { http_code, .. } => *http_code,
            WebError::Sqlx | WebError::InternalError { .. } => 500,
        }
    }

    /// The machine-readable code of the answer.
    pub fn to_error_code(&self) -> (res: String)
        ensures
            res@ == match *self {
                WebError::Unauthorized | WebError::NamedUnauthorized { .. } => "unauthorized"@,
                WebError::InvalidCredentials => "invalid_credentials"@,
                WebError::NamedNotFound { .. } => "named_not_found"@,
                WebError::NotFound => "not_found"@,
                WebError::NotInTeam => "not_in_team"@,
                WebError::FromHttp { error_code, .. } => error_code@,
                WebError::Sqlx => "sql_error"@,
                WebError::InternalError { .. } => "internal_error"@,
            },
    {
        match self {
            WebError::Unauthorized | WebError::NamedUnauthorized { .. } => String::from_str("unauthorized"),
            WebError::InvalidCredentials => String::from_str("invalid_credentials"),
            WebError::NamedNotFound { .. } => String::from_str("named_not_found"),
            WebError::NotFound => String::from_str("not_found"),
            WebError::NotInTeam => String::from_str("not_in_team"),
            WebError::FromHttp { error_code, .. } => error_code.clone(),
            WebError::Sqlx => String::from_str("sql_error"),
            WebError::InternalError { .. } => String::from_str("internal_error"),
        }
    }

    /// The extra data of the answer, as a key and a value: what was not found, or the
    /// message of an internal error.
    pub fn to_extra(&self) -> (res: Option<(String, String)>)
        ensures
            match *self {
                WebError::NamedNotFound { what } => res matches Some(e) && e.0@ == "what"@ && e.1@ == what@,
                WebError::InternalError { message } => res matches Some(e) && e.0@ == "message"@ && e.1@ == message@,
                WebError::NamedUnauthorized { action } => res matches Some(e) && e.0@ == "action"@ && e.1@ == action@,
                _ => res is None,
            },
    {
        match self {
            WebError::NamedNotFound { what } => Some((String::from_str("what"), what.clone())),
            WebError::InternalError { message } => Some((String::from_str("message"), message.clone())),
            WebError::NamedUnauthorized { action } => Some((String::from_str("action"), action.clone())),
            _ => None,
        }
    }

    /// Whether the answer is an internal server error, which the backend logs.
    pub fn is_internal(&self) -> (res: bool)
        ensures
            res == (self.to_http_code_spec() == 500),
    {
        self.to_http_code() == 500
    }

    /// The HTTP status of the answer.
    pub open spec fn to_http_code_spec(&self) -> u16 {
        match *self {
            WebError::Unauthorized | WebError::InvalidCredentials | WebError::NamedUnauthorized { .. } => 401u16,
            WebError::NamedNotFound { .. } | WebError::NotFound => 404u16,
            WebError::NotInTeam => 403u16,
            WebError::FromHttp { http_code, .. } => http_code,
            WebError::Sqlx | WebError::InternalError { .. } => 500u16,
        }
    }
}

/// The claims of a request, from a valid token and the user as the database has them now:
/// the role is the current one, the team that of the user, if any.
pub fn claims_with_optional_team(claims: CrowJwt, user: UserForAuth) -> (res: Claims<Option<TeamId>>)
    ensures
        res.sub == claims.sub,
        res.team == user.user.team,
        res.exp == claims.exp,
        res.iss == claims.iss,
        res.role == user.role,
{
    Claims { sub: claims.sub, team: user.user.team, exp: claims.exp, iss: claims.iss, role: user.role }
}

/// The claims of a request that needs a team, or the error that the user is in none.
pub fn claims_with_team(claims: CrowJwt, user: UserForAuth) -> (res: Result<Claims<TeamId>, WebError>)
    ensures
        match user.user.team {
            Some(t) => res matches Ok(c) && c.sub == claims.sub && c.team == t && c.exp == claims.exp && c.iss
                == claims.iss && c.role == user.role,
            None => res matches Err(WebError::NotInTeam),
        },
{
    match user.user.team {
        Some(team) => Ok(Claims { sub: claims.sub, team, exp: claims.exp, iss: claims.iss, role: user.role }),
        None => Err(WebError::NotInTeam),
    }
}

/// The user answering to a valid token, or the error that the token's user no longer exists.
pub fn jwt_user(user: Option<UserForAuth>) -> (res: Result<UserForAuth, WebError>)
    ensures
        match user {
            Some(u) => res == Ok::<UserForAuth, WebError>(u),
            None => res matches Err(WebError::InvalidCredentials),
        },
{
    match user {
        Some(u) => Ok(u),
        None => Err(WebError::InvalidCredentials),
    }
}

} // verus!

verus! {

/// A team as the configuration lists it: its members, and whether they are admins.
#[derive(Debug, Clone)]
pub struct TeamEntry {
    pub id: TeamId,
    pub display_name: String,
    pub members: Vec<UserId>,
    pub is_admin: bool,
}

/// Whether a team with id `id` is configured.
pub open spec fn configured(teams: Seq<TeamEntry>, id: Seq<char>) -> bool {
    exists|i: int| 0 <= i < teams.len() && (#[trigger] teams[i]).id@ == id
}

/// The stored teams that the configuration no longer lists, in stored order: those to remove.
pub fn teams_to_remove(existing: &Vec<String>, teams: &Vec<TeamEntry>) -> (res: Vec<String>)
    ensures
        strings_view(res@) == strings_view(existing@).filter(|id: Seq<char>| !configured(teams@, id)),
{
    let ghost keep = |id: Seq<char>| !configured(teams@, id);
    let mut res: Vec<String> = Vec::new();
    let mut i: usize = 0;
    while i < existing.len()
        invariant
            i <= existing.len(),
            forall|id: Seq<char>| #[trigger] keep(id) == !configured(teams@, id),
            strings_view(res@) == strings_view(existing@).take(i as int).filter(keep),
        decreases existing.len() - i,
    {
        proof {
            crate::client::lemma_filter_take_step(strings_view(existing@), keep, i as int);
            assert(strings_view(existing@).take(i + 1) =~= strings_view(existing@.take(i + 1)));
        }
        let mut found = false;
        let mut j: usize = 0;
        while j < teams.len()
            invariant
                j <= teams.len(),
                i < existing.len(),
                found == exists|k: int| 0 <= k < j && (#[trigger] teams@[k]).id@ == existing@[i as int]@,
            decreases teams.len() - j,
        {
            if crate::text::same_text(teams[j].id.0.as_str(), existing[i].as_str()) {
                found = true;
            }
            j = j + 1;
        }
        let ghost before = strings_view(res@);
        if !found {
            res.push(existing[i].clone());
            assert(strings_view(res@) =~= before.push(existing@[i as int]@));
        }
        i = i + 1;
    }
    assert(strings_view(existing@).take(i as int) =~= strings_view(existing@));
    assert(keep =~= (|id: Seq<char>| !configured(teams@, id)));
    res
}

/// A membership: a user, their team and their role.
pub type MembershipView = (Seq<char>, Seq<char>, UserRole);

/// The role of the members of a team.
pub open spec fn team_role(t: TeamEntry) -> UserRole {
    if t.is_admin {
        UserRole::Admin
    } else {
        UserRole::Regular
    }
}

/// The memberships of a team, in the order of its members.
pub open spec fn team_memberships(t: TeamEntry) -> Seq<MembershipView> {
    t.members@.map_values(|u: UserId| (u@, t.id@, team_role(t)))
}

/// The memberships of all teams, team after team.
pub open spec fn memberships(teams: Seq<TeamEntry>) -> Seq<MembershipView>
    decreases teams.len(),
{
    if teams.len() == 0 {
        Seq::empty()
    } else {
        memberships(teams.drop_last()) + team_memberships(teams.last())
    }
}

/// The team and role of user `u`: those of their last membership.
pub open spec fn last_membership(ms: Seq<MembershipView>, u: Seq<char>) -> Option<(Seq<char>, UserRole)>
    decreases ms.len(),
{
    if ms.len() == 0 {
        None
    } else if ms.last().0 == u {
        Some((ms.last().1, ms.last().2))
    } else {
        last_membership(ms.drop_last(), u)
    }
}

/// The views of a team mapping.
pub open spec fn mapping_view(m: Seq<(UserId, (TeamId, UserRole))>) -> Seq<MembershipView> {
    m.map_values(|e: (UserId, (TeamId, UserRole))| (e.0@, e.1.0@, e.1.1))
}

/// Whether a mapping holds each user once, with their last membership, and no one else.
pub open spec fn maps_members(m: Seq<MembershipView>, ms: Seq<MembershipView>) -> bool {
    &&& forall|i: int, j: int| 0 <= i < j < m.len() ==> (#[trigger] m[i]).0 != (#[trigger] m[j]).0
    &&& forall|i: int| 0 <= i < m.len() ==> last_membership(ms, (#[trigger] m[i]).0) == Some((m[i].1, m[i].2))
    &&& forall|k: int| 0 <= k < ms.len() ==> exists|i: int| 0 <= i < m.len() && (#[trigger] m[i]).0 == (#[trigger] ms[k]).0
}

proof fn lemma_last_membership_push(ms: Seq<MembershipView>, e: MembershipView, u: Seq<char>)
    ensures
        last_membership(ms.push(e), u) == if e.0 == u {
            Some((e.1, e.2))
        } else {
            last_membership(ms, u)
        },
{
    assert(ms.push(e).drop_last() =~= ms);
}

fn find_user(m: &Vec<(UserId, (TeamId, UserRole))>, u: &UserId) -> (res: Option<usize>)
    ensures
        match res {
            Some(i) => i < m.len() && m@[i as int].0@ == u@ && forall|j: int| 0 <= j < i ==> m@[j].0@ != u@,
            None => forall|j: int| 0 <= j < m.len() ==> m@[j].0@ != u@,
        },
{
    let mut i: usize = 0;
    while i < m.len()
        invariant
            i <= m.len(),
            forall|j: int| 0 <= j < i ==> m@[j].0@ != u@,
        decreases m.len() - i,
    {
        if m[i].0.0 == u.0 {
            return Some(i);
        }
        i = i + 1;
    }
    None
}

/// Which team and role each configured user has; a user listed in several teams gets the
/// last one.
pub fn get_team_mapping(teams: &Vec<TeamEntry>) -> (res: Vec<(UserId, (TeamId, UserRole))>)
    ensures
        maps_members(mapping_view(res@), memberships(teams@)),
{
    let mut m: Vec<(UserId, (TeamId, UserRole))> = Vec::new();
    let mut t: usize = 0;
    while t < teams.len()
        invariant
            t <= teams.len(),
            maps_members(mapping_view(m@), memberships(teams@.take(t as int))),
        decreases teams.len() - t,
    {
        let team = &teams[t];
        let role = if team.is_admin { UserRole::Admin } else { UserRole::Regular };
        let ghost base = memberships(teams@.take(t as int));
        assert(teams@.take(t + 1).drop_last() =~= teams@.take(t as int));
        assert(memberships(teams@.take(t + 1)) == base + team_memberships(*team));
        let mut k: usize = 0;
        while k < team.members.len()
            invariant
                k <= team.members.len(),
                team == teams@[t as int],
                role == team_role(*team),
                maps_members(mapping_view(m@), base + team_memberships(*team).take(k as int)),
            decreases team.members.len() - k,
        {
            let u = &team.members[k];
            let ghost ms0 = base + team_memberships(*team).take(k as int);
            let ghost e = (u@, team.id@, role);
            assert(base + team_memberships(*team).take(k + 1) =~= ms0.push(e));
            let ghost m0 = mapping_view(m@);
            let ghost mut idx: int = 0;
            match find_user(&m, u) {
                Some(i) => {
                    m.set(i, (u.duplicate(), (team.id.duplicate(), role)));
                    assert(mapping_view(m@) =~= m0.update(i as int, e));
                    proof {
                        idx = i as int;
                    }
                },
                None => {
                    m.push((u.duplicate(), (team.id.duplicate(), role)));
                    assert(mapping_view(m@) =~= m0.push(e));
                    proof {
                        idx = m0.len() as int;
                    }
                },
            }
            proof {
                let mv = mapping_view(m@);
                assert(0 <= idx < mv.len() && mv[idx] == e);
                assert forall|i: int| 0 <= i < mv.len() && i != idx implies #[trigger] mv[i] == m0[i] && m0[i].0 != e.0 by {
                    if idx < m0.len() {
                        assert(m0[idx].0 == e.0);
                        if i < idx {
                            assert(m0[i].0 != m0[idx].0);
                        } else {
                            assert(m0[idx].0 != m0[i].0);
                        }
                    }
                }
                assert forall|i: int| 0 <= i < mv.len() implies last_membership(ms0.push(e), (#[trigger] mv[i]).0)
                    == Some((mv[i].1, mv[i].2)) by {
                    lemma_last_membership_push(ms0, e, mv[i].0);
                    if i != idx {
                        assert(mv[i] == m0[i]);
                    }
                }
                assert forall|q: int| 0 <= q < ms0.push(e).len() implies exists|i: int|
                    0 <= i < mv.len() && (#[trigger] mv[i]).0 == (#[trigger] ms0.push(e)[q]).0 by {
                    if q < ms0.len() {
                        assert(ms0.push(e)[q] == ms0[q]);
                        let i = choose|i: int| 0 <= i < m0.len() && (#[trigger] m0[i]).0 == (#[trigger] ms0[q]).0;
                        if i == idx {
                            assert(mv[idx].0 == e.0);
                            assert(m0[idx].0 == e.0);
                        } else {
                            assert(mv[i] == m0[i]);
                        }
                    } else {
                        assert(mv[idx].0 == ms0.push(e)[q].0);
                    }
                }
                assert forall|i: int, j: int| 0 <= i < j < mv.len() implies (#[trigger] mv[i]).0 != (#[trigger] mv[j]).0 by {
                    if i != idx && j != idx {
                        assert(m0[i].0 != m0[j].0);
                    }
                }
            }
            k = k + 1;
        }
        assert(team_memberships(*team).take(k as int) =~= team_memberships(*team));
        t = t + 1;
    }
    assert(teams@.take(t as int) =~= teams@);
    m
}

/// The team and role of user `u` in a mapping: those of its first entry for `u`.
pub open spec fn user_lookup(m: Seq<MembershipView>, u: Seq<char>) -> Option<(Seq<char>, UserRole)>
    decreases m.len(),
{
    if m.len() == 0 {
        None
    } else if m[0].0 == u {
        Some((m[0].1, m[0].2))
    } else {
        user_lookup(m.drop_first(), u)
    }
}

proof fn lemma_lookup_first(m: Seq<MembershipView>, u: Seq<char>, i: int)
    requires
        0 <= i < m.len(),
        m[i].0 == u,
        forall|j: int| 0 <= j < i ==> m[j].0 != u,
    ensures
        user_lookup(m, u) == Some((m[i].1, m[i].2)),
    decreases i,
{
    if i > 0 {
        lemma_lookup_first(m.drop_first(), u, i - 1);
    }
}

proof fn lemma_lookup_absent(m: Seq<MembershipView>, u: Seq<char>)
    requires
        forall|j: int| 0 <= j < m.len() ==> m[j].0 != u,
    ensures
        user_lookup(m, u) is None,
    decreases m.len(),
{
    if m.len() > 0 {
        lemma_lookup_absent(m.drop_first(), u);
    }
}

proof fn lemma_lookup_found(m: Seq<MembershipView>, u: Seq<char>)
    ensures
        user_lookup(m, u) matches Some(x) ==> exists|i: int| 0 <= i < m.len() && #[trigger] m[i].0 == u && x == (m[i].1, m[i].2),
        user_lookup(m, u) is None ==> forall|i: int| 0 <= i < m.len() ==> #[trigger] m[i].0 != u,
    decreases m.len(),
{
    if m.len() > 0 {
        lemma_lookup_found(m.drop_first(), u);
        if m[0].0 != u {
            if let Some(x) = user_lookup(m, u) {
                let k = choose|k: int| 0 <= k < m.drop_first().len() && #[trigger] m.drop_first()[k].0 == u && x == (
                    m.drop_first()[k].1,
                    m.drop_first()[k].2,
                );
                assert(m[k + 1] == m.drop_first()[k]);
            } else {
                assert forall|i: int| 0 <= i < m.len() implies #[trigger] m[i].0 != u by {
                    if i > 0 {
                        assert(m[i] == m.drop_first()[i - 1]);
                    }
                }
            }
        }
    }
}

proof fn lemma_last_membership_found(ms: Seq<MembershipView>, u: Seq<char>)
    requires
        last_membership(ms, u) is Some,
    ensures
        exists|k: int| 0 <= k < ms.len() && (#[trigger] ms[k]).0 == u,
    decreases ms.len(),
{
    if ms.last().0 != u {
        lemma_last_membership_found(ms.drop_last(), u);
        let k = choose|k: int| 0 <= k < ms.drop_last().len() && (#[trigger] ms.drop_last()[k]).0 == u;
        assert(ms[k] == ms.drop_last()[k]);
    } else {
        assert(ms[ms.len() - 1].0 == u);
    }
}

/// A user who logs in gets the team and role of the last team that the configuration lists
/// them in, and no team where it lists them in none: looking a user up in the team mapping
/// gives their last membership.
pub proof fn lemma_login_team(teams: Seq<TeamEntry>, m: Seq<MembershipView>, u: Seq<char>)
    requires
        maps_members(m, memberships(teams)),
    ensures
        user_lookup(m, u) == last_membership(memberships(teams), u),
{
    let ms = memberships(teams);
    lemma_lookup_found(m, u);
    if let Some(x) = user_lookup(m, u) {
        let i = choose|i: int| 0 <= i < m.len() && #[trigger] m[i].0 == u && x == (m[i].1, m[i].2);
        assert(last_membership(ms, m[i].0) == Some((m[i].1, m[i].2)));
    } else if last_membership(ms, u) is Some {
        lemma_last_membership_found(ms, u);
        let k = choose|k: int| 0 <= k < ms.len() && (#[trigger] ms[k]).0 == u;
        let i = choose|i: int| 0 <= i < m.len() && (#[trigger] m[i]).0 == (#[trigger] ms[k]).0;
        assert(m[i].0 == u);
    }
}

/// The team and role of `user` in a team mapping, if it has them.
pub fn team_of_user(mapping: &Vec<(UserId, (TeamId, UserRole))>, user: &UserId) -> (res: Option<(TeamId, UserRole)>)
    ensures
        match res {
            Some((t, r)) => user_lookup(mapping_view(mapping@), user@) == Some((t@, r)),
            None => user_lookup(mapping_view(mapping@), user@) is None,
        },
{
    let ghost mv = mapping_view(mapping@);
    match find_user(mapping, user) {
        Some(i) => {
            proof {
                assert forall|j: int| 0 <= j < i implies mv[j].0 != user@ by {
                    assert(mv[j].0 == mapping@[j].0@);
                }
                lemma_lookup_first(mv, user@, i as int);
            }
            Some((mapping[i].1.0.duplicate(), mapping[i].1.1))
        },
        None => {
            proof {
                assert forall|j: int| 0 <= j < mv.len() implies mv[j].0 != user@ by {
                    assert(mv[j].0 == mapping@[j].0@);
                }
                lemma_lookup_absent(mv, user@);
            }
            None
        },
    }
}


/// The answer to "who am I": the user and their team, if any.
#[derive(Debug, Clone)]
pub struct MeResponse {
    pub user: OwnUser,
    pub team: Option<Team>,
}

/// The answer to a login: the user and their token.
#[derive(Debug, Clone)]
pub struct LoginResponse {
    pub user: User,
    pub token: String,
}

/// A user in the user list: admins see everything, others only the plain user.
#[derive(Debug, Clone)]
pub enum UserInfoResponse {
    User(User),
    FullUser(FullUserForAdmin),
}

impl UserInfoResponse {
    /// How `user` is listed to the holder of `claims`: in full for an admin, else plain.
    pub fn from_full_user(claims: &Option<Claims<TeamId>>, user: FullUserForAdmin) -> (res: Option<Self>)
        ensures
            (claims matches Some(c) && c.role == UserRole::Admin) ==> res == Some(UserInfoResponse::FullUser(user)),
            !(claims matches Some(c) && c.role == UserRole::Admin) ==> res == Some(UserInfoResponse::User(user.user.user)),
    {
        if Claims::is_admin_opt(claims) {
            Some(UserInfoResponse::FullUser(user))
        } else {
            Some(UserInfoResponse::User(user.into_user()))
        }
    }
}

/// Where a team installs the GitHub app.
#[derive(Debug, Clone)]
pub struct GithubIntegrationInfoResponse {
    pub url: String,
}

impl GithubIntegrationInfoResponse {
    /// The installation page of the GitHub app `app_name`.
    pub fn from_app_name(app_name: String) -> (res: Self)
        ensures
            res.url@ == "https://github.com/apps/"@ + app_name@ + "/installations/new"@,
    {
        GithubIntegrationInfoResponse {
            url: concat3("https://github.com/apps/", app_name.as_str(), "/installations/new"),
        }
    }
}

/// A team's integration: its token, and the GitHub app where there is one.
#[derive(Debug, Clone)]
pub struct IntegrationInfoResponse {
    pub token: TeamIntegrationToken,
    pub github: Option<GithubIntegrationInfoResponse>,
}

/// The token with which the client talks to the backend.
#[derive(Debug, Clone)]
pub struct BackendAuth(pub String);

/// The outcome of checking a token with the backend.
#[derive(Debug, Clone)]
pub enum LoginResult {
    WrongPassword,
    Success { name: String, auth: BackendAuth },
}

/// What checking a token with the backend comes to, given the HTTP status of the answer and,
/// for an accepted token, the user's name: a rejected token is a wrong password, an accepted
/// one a login; any other status is returned as the error.
pub fn login_result(status: u16, display_name: Option<String>, token: String) -> (res: Result<LoginResult, u16>)
    requires
        status == 200 ==> display_name is Some,
    ensures
        status == 401 ==> res matches Ok(LoginResult::WrongPassword),
        status == 200 ==> (res matches Ok(LoginResult::Success { name, auth }) && name == display_name->0 && auth.0
            == token),
        status != 401 && status != 200 ==> res == Err::<LoginResult, u16>(status),
{
    if status == 401 {
        return Ok(LoginResult::WrongPassword);
    }
    if status == 200 {
        return Ok(LoginResult::Success { name: display_name.unwrap(), auth: BackendAuth(token) });
    }
    Err(status)
}

} // verus!
