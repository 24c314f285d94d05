use vstd::prelude::*;

use crate::text::{decimal, decimal_string};

verus! {

/// Row selection shared by every changelog listing: each entry with its map
/// name and the user's display name (board name when set, else Steam name).
pub const SELECT_CHANGELOG: &'static str = "SELECT cl.id, cl.timestamp, cl.profile_number, cl.score, cl.map_id, cl.demo_id, cl.banned, cl.youtube_id, cl.previous_id, cl.coop_id, cl.post_rank, cl.pre_rank, cl.submission, cl.note, cl.category_id, cl.score_delta, cl.verified, cl.admin_note, map.name AS map_name, CASE WHEN u.board_name IS NULL THEN u.steam_name WHEN u.board_name IS NOT NULL THEN u.board_name END user_name, u.avatar FROM \"p2boards\".changelog AS cl INNER JOIN \"p2boards\".users AS u ON (u.profile_number = cl.profile_number) INNER JOIN \"p2boards\".maps AS map ON (map.steam_id = cl.map_id) INNER JOIN \"p2boards\".chapters AS chapter ON (map.chapter_id = chapter.id)";

/// Newest first; entries without a timestamp go last.
pub const ORDER_AND_LIMIT: &'static str = " ORDER BY cl.timestamp DESC NULLS LAST LIMIT ";

/// Page size used when the caller gives none.
pub const DEFAULT_LIMIT: u64 = 200;

/// The filters a caller may ask for when listing the changelog. Every field is optional.
pub struct ChangelogQueryParams {
    pub limit: Option<u64>,
    pub nick_name: Option<String>,
    pub profile_number: Option<String>,
    pub chamber: Option<String>,
    pub sp: Option<bool>,
    pub coop: Option<bool>,
    pub wr_gain: Option<bool>,
    pub has_demo: Option<bool>,
    pub yt: Option<bool>,
    pub first: Option<i64>,
    pub last: Option<i64>,
}

/// One condition of the composed query.
#[derive(Debug)]
pub enum Predicate {
    /// The entry's chapter is (or is not) a co-op chapter.
    Multiplayer(bool),
    /// The entry has (or has no) demo.
    HasDemo(bool),
    /// The entry has (or has no) video.
    HasVideo(bool),
    /// The entry reached first place.
    FirstPlace,
    /// The entry is on this map.
    OnMap(String),
    /// The entry belongs to one of these users.
    Users(Vec<String>),
    /// The entry's id is strictly greater than this.
    IdAbove(i64),
    /// The entry's id is strictly less than this.
    IdBelow(i64),
}

/// A value bound to a placeholder of the composed query.
#[derive(Debug)]
pub enum BindValue {
    Text(String),
    Int(i64),
}

/// A composed query: its text, with `$1`, `$2`, ... placeholders, and the values
/// bound to them in order.
#[derive(Debug)]
pub struct ComposedQuery {
    pub sql: String,
    pub binds: Vec<BindValue>,
}

/// Why a query could not be composed.
#[derive(Debug, Clone, Copy, PartialEq, Eq, Structural)]
pub enum FilterError {
    /// The nickname pattern matched no user.
    NoUsersFound,
}

/// Mathematical form of a [`Predicate`].
pub enum PredicateView {
    Multiplayer(bool),
    HasDemo(bool),
    HasVideo(bool),
    FirstPlace,
    OnMap(Seq<char>),
    Users(Seq<Seq<char>>),
    IdAbove(i64),
    IdBelow(i64),
}

/// Mathematical form of a [`BindValue`].
pub enum BindView {
    Text(Seq<char>),
    Int(i64),
}

pub open spec fn strings_view(v: Seq<String>) -> Seq<Seq<char>> {
    v.map_values(|s: String| s@)
}

impl View for Predicate {
    type V = PredicateView;

    open spec fn view(&self) -> PredicateView {
        match self {
            Predicate::Multiplayer(b) => PredicateView::Multiplayer(*b),
            Predicate::HasDemo(b) => PredicateView::HasDemo(*b),
            Predicate::HasVideo(b) => PredicateView::HasVideo(*b),
            Predicate::FirstPlace => PredicateView::FirstPlace,
            Predicate::OnMap(m) => PredicateView::OnMap(m@),
            Predicate::Users(ids) => PredicateView::Users(strings_view(ids@)),
            Predicate::IdAbove(n) => PredicateView::IdAbove(*n),
            Predicate::IdBelow(n) => PredicateView::IdBelow(*n),
        }
    }
}

impl View for BindValue {
    type V = BindView;

    open spec fn view(&self) -> BindView {
        match self {
            BindValue::Text(s) => BindView::Text(s@),
            BindValue::Int(n) => BindView::Int(*n),
        }
    }
}

pub open spec fn predicates_view(v: Seq<Predicate>) -> Seq<PredicateView> {
    v.map_values(|p: Predicate| p@)
}

pub open spec fn binds_view(v: Seq<BindValue>) -> Seq<BindView> {
    v.map_values(|b: BindValue| b@)
}

// ---------------------------------------------------------------------------
// Which predicates a set of parameters asks for

/// Exactly one of the two mode flags is `false`: that mode is left out.
/// Both `true`, both absent, or both `false` leave the mode unconstrained.
pub open spec fn mode_filter(sp: Option<bool>, coop: Option<bool>) -> Seq<PredicateView> {
    if coop == Some(false) && sp != Some(false) {
        seq![PredicateView::Multiplayer(false)]
    } else if sp == Some(false) && coop != Some(false) {
        seq![PredicateView::Multiplayer(true)]
    } else {
        seq![]
    }
}

pub open spec fn demo_filter(has_demo: Option<bool>) -> Seq<PredicateView> {
    match has_demo {
        Some(b) => seq![PredicateView::HasDemo(b)],
        None => seq![],
    }
}

pub open spec fn video_filter(yt: Option<bool>) -> Seq<PredicateView> {
    match yt {
        Some(b) => seq![PredicateView::HasVideo(b)],
        None => seq![],
    }
}

pub open spec fn first_place_filter(wr_gain: Option<bool>) -> Seq<PredicateView> {
    if wr_gain == Some(true) {
        seq![PredicateView::FirstPlace]
    } else {
        seq![]
    }
}

pub open spec fn map_filter(chamber: Option<String>) -> Seq<PredicateView> {
    match chamber {
        Some(m) => seq![PredicateView::OnMap(m@)],
        None => seq![],
    }
}

/// A user id takes precedence over a nickname; a nickname stands for the users
/// that the lookup found for it.
pub open spec fn user_filter(
    profile_number: Option<String>,
    nick_name: Option<String>,
    found: Option<Seq<Seq<char>>>,
) -> Seq<PredicateView> {
    match profile_number {
        Some(id) => seq![PredicateView::Users(seq![id@])],
        None => match nick_name {
            Some(_) => seq![PredicateView::Users(found.unwrap())],
            None => seq![],
        },
    }
}

/// `first` takes precedence over `last`.
pub open spec fn cursor_filter(first: Option<i64>, last: Option<i64>) -> Seq<PredicateView> {
    match first {
        Some(f) => seq![PredicateView::IdAbove(f)],
        None => match last {
            Some(l) => seq![PredicateView::IdBelow(l)],
            None => seq![],
        },
    }
}

/// The predicates of the query for `p`, in order, given what the nickname
/// lookup found (`None`: it found nothing or was not made).
pub open spec fn query_filters(p: ChangelogQueryParams, found: Option<Seq<Seq<char>>>) -> Seq<
    PredicateView,
> {
    mode_filter(p.sp, p.coop) + demo_filter(p.has_demo) + video_filter(p.yt) + first_place_filter(
        p.wr_gain,
    ) + map_filter(p.chamber) + user_filter(p.profile_number, p.nick_name, found) + cursor_filter(
        p.first,
        p.last,
    )
}

/// The parameters name users by nickname alone.
pub open spec fn needs_lookup(p: ChangelogQueryParams) -> bool {
    p.profile_number is None && p.nick_name is Some
}

/// The nickname lookup was needed and found nobody.
pub open spec fn nickname_unresolved(p: ChangelogQueryParams, found: Option<Seq<Seq<char>>>) -> bool {
    needs_lookup(p) && (found is None || found.unwrap().len() == 0)
}

pub open spec fn found_view(found: Option<Vec<String>>) -> Option<Seq<Seq<char>>> {
    match found {
        Some(v) => Some(strings_view(v@)),
        None => None,
    }
}

pub open spec fn limit_of(p: ChangelogQueryParams) -> u64 {
    match p.limit {
        Some(l) => l,
        None => DEFAULT_LIMIT,
    }
}

// ---------------------------------------------------------------------------
// How predicates are written

pub open spec fn placeholder(k: nat) -> Seq<char> {
    "$"@ + decimal(k)
}

pub open spec fn user_term(k: nat) -> Seq<char> {
    "cl.profile_number = "@ + placeholder(k)
}

/// `n` user equality checks on placeholders `k`, `k + 1`, ..., joined by `OR`.
pub open spec fn user_terms(n: nat, k: nat) -> Seq<char>
    decreases n,
{
    if n <= 1 {
        user_term(k)
    } else {
        user_terms((n - 1) as nat, k) + " OR "@ + user_term((k + n - 1) as nat)
    }
}

/// A user group: one check stands alone, several form one parenthesised
/// disjunction, and none matches nothing.
pub open spec fn users_sql(n: nat, k: nat) -> Seq<char> {
    if n == 0 {
        "FALSE"@
    } else if n == 1 {
        user_term(k)
    } else {
        "("@ + user_terms(n, k) + ")"@
    }
}

/// The text of one predicate whose first placeholder is `k`.
pub open spec fn predicate_sql(p: PredicateView, k: nat) -> Seq<char> {
    match p {
        PredicateView::Multiplayer(b) => if b {
            "chapter.is_multiplayer = True"@
        } else {
            "chapter.is_multiplayer = False"@
        },
        PredicateView::HasDemo(b) => if b {
            "cl.demo_id IS NOT NULL"@
        } else {
            "cl.demo_id IS NULL"@
        },
        PredicateView::HasVideo(b) => if b {
            "cl.youtube_id IS NOT NULL"@
        } else {
            "cl.youtube_id IS NULL"@
        },
        PredicateView::FirstPlace => "cl.post_rank = 1"@,
        PredicateView::OnMap(_) => "cl.map_id = "@ + placeholder(k),
        PredicateView::Users(ids) => users_sql(ids.len(), k),
        PredicateView::IdAbove(_) => "cl.id > "@ + placeholder(k),
        PredicateView::IdBelow(_) => "cl.id < "@ + placeholder(k),
    }
}

/// The values one predicate binds, in placeholder order.
pub open spec fn predicate_binds(p: PredicateView) -> Seq<BindView> {
    match p {
        PredicateView::OnMap(m) => seq![BindView::Text(m)],
        PredicateView::Users(ids) => ids.map_values(|s: Seq<char>| BindView::Text(s)),
        PredicateView::IdAbove(n) => seq![BindView::Int(n)],
        PredicateView::IdBelow(n) => seq![BindView::Int(n)],
        _ => seq![],
    }
}

/// The values a list of predicates binds, in placeholder order.
pub open spec fn all_binds(ps: Seq<PredicateView>) -> Seq<BindView>
    decreases ps.len(),
{
    if ps.len() == 0 {
        seq![]
    } else {
        all_binds(ps.drop_last()) + predicate_binds(ps.last())
    }
}

/// The condition part: the first predicate after `WHERE`, each later one after `AND`.
pub open spec fn conditions_sql(ps: Seq<PredicateView>) -> Seq<char>
    decreases ps.len(),
{
    if ps.len() == 0 {
        seq![]
    } else {
        let keyword = if ps.len() == 1 {
            " WHERE "@
        } else {
            " AND "@
        };
        conditions_sql(ps.drop_last()) + keyword + predicate_sql(
            ps.last(),
            all_binds(ps.drop_last()).len() + 1,
        )
    }
}

/// The full query text for a list of predicates and a page size.
pub open spec fn query_sql(ps: Seq<PredicateView>, limit: u64) -> Seq<char> {
    SELECT_CHANGELOG@ + conditions_sql(ps) + ORDER_AND_LIMIT@ + decimal(limit as nat)
}


proof fn lemma_binds_step(ps: Seq<PredicateView>, i: int)
    requires
        0 <= i < ps.len(),
    ensures
        all_binds(ps.take(i + 1)) == all_binds(ps.take(i)) + predicate_binds(ps[i]),
        conditions_sql(ps.take(i + 1)) == conditions_sql(ps.take(i)) + (if i == 0 {
            " WHERE "@
        } else {
            " AND "@
        }) + predicate_sql(ps[i], all_binds(ps.take(i)).len() + 1),
{
    assert(ps.take(i + 1).drop_last() =~= ps.take(i));
}

proof fn lemma_binds_prefix_len(ps: Seq<PredicateView>, i: int)
    requires
        0 <= i <= ps.len(),
    ensures
        all_binds(ps.take(i)).len() <= all_binds(ps).len(),
    decreases ps.len() - i,
{
    if i == ps.len() {
        assert(ps.take(i) =~= ps);
    } else {
        lemma_binds_prefix_len(ps, i + 1);
        lemma_binds_step(ps, i);
    }
}

fn placeholder_string(k: usize) -> (r: String)
    ensures
        r@ == placeholder(k as nat),
{
    let mut r = String::from_str("$");
    let digits = decimal_string(k as u64);
    r.append(digits.as_str());
    r
}

fn user_term_string(k: usize) -> (r: String)
    ensures
        r@ == user_term(k as nat),
{
    let mut r = String::from_str("cl.profile_number = ");
    let ph = placeholder_string(k);
    r.append(ph.as_str());
    r
}

fn users_condition(ids: &Vec<String>, first: usize) -> (r: String)
    requires
        first + ids@.len() <= usize::MAX,
    ensures
        r@ == users_sql(ids@.len(), first as nat),
{
    let n = ids.len();
    if n == 0 {
        return String::from_str("FALSE");
    }
    let mut terms = user_term_string(first);
    let mut j: usize = 1;
    while j < n
        invariant
            1 <= j <= n,
            n == ids@.len(),
            first + n <= usize::MAX,
            terms@ == user_terms(j as nat, first as nat),
        decreases n - j,
    {
        terms.append(" OR ");
        let t = user_term_string(first + j);
        terms.append(t.as_str());
        j = j + 1;
    }
    if n == 1 {
        terms
    } else {
        let mut r = String::from_str("(");
        r.append(terms.as_str());
        r.append(")");
        r
    }
}

fn predicate_condition(p: &Predicate, k: usize) -> (r: String)
    requires
        k + predicate_binds(p@).len() <= usize::MAX,
    ensures
        r@ == predicate_sql(p@, k as nat),
{
    match p {
        Predicate::Multiplayer(b) => if *b {
            String::from_str("chapter.is_multiplayer = True")
        } else {
            String::from_str("chapter.is_multiplayer = False")
        },
        Predicate::HasDemo(b) => if *b {
            String::from_str("cl.demo_id IS NOT NULL")
        } else {
            String::from_str("cl.demo_id IS NULL")
        },
        Predicate::HasVideo(b) => if *b {
            String::from_str("cl.youtube_id IS NOT NULL")
        } else {
            String::from_str("cl.youtube_id IS NULL")
        },
        Predicate::FirstPlace => String::from_str("cl.post_rank = 1"),
        Predicate::OnMap(_) => {
            let mut r = String::from_str("cl.map_id = ");
            let ph = placeholder_string(k);
            r.append(ph.as_str());
            r
        },
        Predicate::Users(ids) => users_condition(ids, k),
        Predicate::IdAbove(_) => {
            let mut r = String::from_str("cl.id > ");
            let ph = placeholder_string(k);
            r.append(ph.as_str());
            r
        },
        Predicate::IdBelow(_) => {
            let mut r = String::from_str("cl.id < ");
            let ph = placeholder_string(k);
            r.append(ph.as_str());
            r
        },
    }
}

fn push_binds(p: &Predicate, binds: &mut Vec<BindValue>)
    ensures
        binds_view(final(binds)@) == binds_view(old(binds)@) + predicate_binds(p@),
{
    match p {
        Predicate::OnMap(m) => {
            binds.push(BindValue::Text(m.clone()));
            assert(binds_view(binds@) =~= binds_view(old(binds)@) + predicate_binds(p@));
        },
        Predicate::Users(ids) => {
            let ghost start = binds_view(binds@);
            let ghost ids_view = strings_view(ids@);
            let mut j: usize = 0;
            while j < ids.len()
                invariant
                    0 <= j <= ids@.len(),
                    ids_view == strings_view(ids@),
                    binds_view(binds@) == start + ids_view.take(j as int).map_values(
                        |s: Seq<char>| BindView::Text(s),
                    ),
                decreases ids@.len() - j,
            {
                let id = ids[j].clone();
                assert(ids_view[j as int] == ids@[j as int]@);
                assert(ids_view.take(j + 1) =~= ids_view.take(j as int).push(ids_view[j as int]));
                let ghost prev = binds@;
                binds.push(BindValue::Text(id));
                assert(binds_view(binds@) =~= binds_view(prev).push(BindView::Text(ids_view[j as int])));
                assert(ids_view.take(j + 1).map_values(|s: Seq<char>| BindView::Text(s))
                    =~= ids_view.take(j as int).map_values(|s: Seq<char>| BindView::Text(s)).push(
                    BindView::Text(ids_view[j as int]),
                ));
                j = j + 1;
                assert(binds_view(binds@) =~= start + ids_view.take(j as int).map_values(
                    |s: Seq<char>| BindView::Text(s),
                ));
            }
            assert(ids_view.take(j as int) =~= ids_view);
        },
        Predicate::IdAbove(n) => {
            binds.push(BindValue::Int(*n));
            assert(binds_view(binds@) =~= binds_view(old(binds)@) + predicate_binds(p@));
        },
        Predicate::IdBelow(n) => {
            binds.push(BindValue::Int(*n));
            assert(binds_view(binds@) =~= binds_view(old(binds)@) + predicate_binds(p@));
        },
        _ => {
            assert(binds_view(binds@) =~= binds_view(old(binds)@) + predicate_binds(p@));
        },
    }
}

/// Writes the query for a list of predicates: the first one after `WHERE`, each
/// later one after `AND`, then the fixed order and the page size.
pub fn render_query(preds: &Vec<Predicate>, limit: u64) -> (r: ComposedQuery)
    requires
        all_binds(predicates_view(preds@)).len() < usize::MAX,
    ensures
        r.sql@ == query_sql(predicates_view(preds@), limit),
        binds_view(r.binds@) == all_binds(predicates_view(preds@)),
{
    let ghost ps = predicates_view(preds@);
    let mut sql = String::from_str(SELECT_CHANGELOG);
    let mut binds: Vec<BindValue> = Vec::new();
    let mut i: usize = 0;
    proof {
        assert(ps.take(0) =~= Seq::<PredicateView>::empty());
        assert(binds_view(binds@) =~= Seq::<BindView>::empty());
        assert(sql@ =~= SELECT_CHANGELOG@ + conditions_sql(ps.take(0)));
    }
    while i < preds.len()
        invariant
            0 <= i <= preds@.len(),
            ps == predicates_view(preds@),
            all_binds(ps).len() < usize::MAX,
            sql@ == SELECT_CHANGELOG@ + conditions_sql(ps.take(i as int)),
            binds_view(binds@) == all_binds(ps.take(i as int)),
        decreases preds@.len() - i,
    {
        proof {
            lemma_binds_step(ps, i as int);
            lemma_binds_prefix_len(ps, i + 1);
        }
        if i == 0 {
            sql.append(" WHERE ");
        } else {
            sql.append(" AND ");
        }
        let k = binds.len() + 1;
        let cond = predicate_condition(&preds[i], k);
        sql.append(cond.as_str());
        push_binds(&preds[i], &mut binds);
        i = i + 1;
        assert(sql@ =~= SELECT_CHANGELOG@ + conditions_sql(ps.take(i as int)));
    }
    assert(ps.take(i as int) =~= ps);
    sql.append(ORDER_AND_LIMIT);
    let digits = decimal_string(limit);
    sql.append(digits.as_str());
    ComposedQuery { sql, binds }
}


/// The nickname to look up before composing, if the parameters name users by
/// nickname alone.
pub fn nickname_to_resolve(params: &ChangelogQueryParams) -> (r: Option<String>)
    ensures
        r is Some <==> needs_lookup(*params),
        r is Some ==> r.unwrap()@ == params.nick_name.unwrap()@,
{
    match (&params.profile_number, &params.nick_name) {
        (None, Some(nick)) => Some(nick.clone()),
        _ => None,
    }
}

pub open spec fn optional_view(p: Option<Predicate>) -> Seq<PredicateView> {
    match p {
        Some(q) => seq![q@],
        None => seq![],
    }
}

fn push_optional(v: &mut Vec<Predicate>, p: Option<Predicate>)
    ensures
        predicates_view(final(v)@) == predicates_view(old(v)@) + optional_view(p),
{
    let ghost pv = optional_view(p);
    match p {
        Some(q) => {
            v.push(q);
        },
        None => {},
    }
    assert(predicates_view(v@) =~= predicates_view(old(v)@) + pv);
}

fn mode_predicate(sp: Option<bool>, coop: Option<bool>) -> (r: Option<Predicate>)
    ensures
        optional_view(r) == mode_filter(sp, coop),
{
    let coop_off = match coop {
        Some(c) => !c,
        None => false,
    };
    let sp_off = match sp {
        Some(s) => !s,
        None => false,
    };
    if coop_off && !sp_off {
        Some(Predicate::Multiplayer(false))
    } else if sp_off && !coop_off {
        Some(Predicate::Multiplayer(true))
    } else {
        None
    }
}

fn demo_predicate(has_demo: Option<bool>) -> (r: Option<Predicate>)
    ensures
        optional_view(r) == demo_filter(has_demo),
{
    match has_demo {
        Some(b) => Some(Predicate::HasDemo(b)),
        None => None,
    }
}

fn video_predicate(yt: Option<bool>) -> (r: Option<Predicate>)
    ensures
        optional_view(r) == video_filter(yt),
{
    match yt {
        Some(b) => Some(Predicate::HasVideo(b)),
        None => None,
    }
}

fn first_place_predicate(wr_gain: Option<bool>) -> (r: Option<Predicate>)
    ensures
        optional_view(r) == first_place_filter(wr_gain),
{
    match wr_gain {
        Some(true) => Some(Predicate::FirstPlace),
        _ => None,
    }
}

fn map_predicate(chamber: &Option<String>) -> (r: Option<Predicate>)
    ensures
        optional_view(r) == map_filter(*chamber),
{
    match chamber {
        Some(m) => Some(Predicate::OnMap(m.clone())),
        None => None,
    }
}

fn user_predicate(
    profile_number: &Option<String>,
    nick_name: &Option<String>,
    found: Option<Vec<String>>,
) -> (r: Result<Option<Predicate>, FilterError>)
    ensures
        r is Err <==> (profile_number is None && nick_name is Some && (found is None
            || found.unwrap()@.len() == 0)),
        r is Err ==> r == Err::<Option<Predicate>, FilterError>(FilterError::NoUsersFound),
        r is Ok ==> optional_view(r.unwrap()) == user_filter(
            *profile_number,
            *nick_name,
            found_view(found),
        ),
{
    if let Some(id) = profile_number {
        let mut ids: Vec<String> = Vec::new();
        ids.push(id.clone());
        assert(strings_view(ids@) =~= seq![id@]);
        Ok(Some(Predicate::Users(ids)))
    } else if nick_name.is_some() {
        match found {
            Some(ids) => {
                if ids.len() == 0 {
                    Err(FilterError::NoUsersFound)
                } else {
                    Ok(Some(Predicate::Users(ids)))
                }
            },
            None => Err(FilterError::NoUsersFound),
        }
    } else {
        Ok(None)
    }
}

fn cursor_predicate(first: Option<i64>, last: Option<i64>) -> (r: Option<Predicate>)
    ensures
        optional_view(r) == cursor_filter(first, last),
{
    match first {
        Some(f) => Some(Predicate::IdAbove(f)),
        None => match last {
            Some(l) => Some(Predicate::IdBelow(l)),
            None => None,
        },
    }
}

/// The predicates that `params` asks for, in a fixed order: mode, demo, video,
/// first place, map, user, cursor. `found` is what the nickname lookup returned
/// (`None` when it found nobody or was not made); it is read only when the
/// parameters name users by nickname alone.
pub fn compose_filters(params: &ChangelogQueryParams, found: Option<Vec<String>>) -> (r: Result<
    Vec<Predicate>,
    FilterError,
>)
    ensures
        r is Err <==> nickname_unresolved(*params, found_view(found)),
        r is Err ==> r == Err::<Vec<Predicate>, FilterError>(FilterError::NoUsersFound),
        r is Ok ==> predicates_view(r.unwrap()@) == query_filters(*params, found_view(found)),
{
    let ghost fv = found_view(found);
    let user = match user_predicate(&params.profile_number, &params.nick_name, found) {
        Ok(u) => u,
        Err(e) => {
            return Err(e);
        },
    };
    let mut v: Vec<Predicate> = Vec::new();
    assert(predicates_view(v@) =~= Seq::<PredicateView>::empty());
    push_optional(&mut v, mode_predicate(params.sp, params.coop));
    push_optional(&mut v, demo_predicate(params.has_demo));
    push_optional(&mut v, video_predicate(params.yt));
    push_optional(&mut v, first_place_predicate(params.wr_gain));
    push_optional(&mut v, map_predicate(&params.chamber));
    push_optional(&mut v, user);
    push_optional(&mut v, cursor_predicate(params.first, params.last));
    assert(predicates_view(v@) =~= query_filters(*params, fv));
    Ok(v)
}

/// The values that the predicates for `p` bind: the map, each user, the cursor.
pub open spec fn filter_bind_count(p: ChangelogQueryParams, found: Option<Seq<Seq<char>>>) -> nat {
    all_binds(query_filters(p, found)).len()
}

proof fn lemma_all_binds_concat(a: Seq<PredicateView>, b: Seq<PredicateView>)
    ensures
        all_binds(a + b) == all_binds(a) + all_binds(b),
    decreases b.len(),
{
    if b.len() == 0 {
        assert(a + b =~= a);
        assert(all_binds(b) =~= Seq::<BindView>::empty());
        assert(all_binds(a) + all_binds(b) =~= all_binds(a));
    } else {
        lemma_all_binds_concat(a, b.drop_last());
        assert((a + b).drop_last() =~= a + b.drop_last());
        assert((a + b).last() == b.last());
    }
}

proof fn lemma_single_binds(p: PredicateView)
    ensures
        all_binds(seq![p]) == predicate_binds(p),
{
    let e = Seq::<PredicateView>::empty();
    assert(seq![p].drop_last() =~= e);
    assert(all_binds(e) =~= Seq::<BindView>::empty());
    assert(all_binds(seq![p]) =~= predicate_binds(p));
}

proof fn lemma_at_most_one_binds(s: Seq<PredicateView>)
    requires
        s.len() <= 1,
    ensures
        all_binds(s) == (if s.len() == 0 {
            Seq::<BindView>::empty()
        } else {
            predicate_binds(s[0])
        }),
{
    if s.len() == 1 {
        assert(s =~= seq![s[0]]);
        lemma_single_binds(s[0]);
    }
}

/// The number of values bound for `p` is at most the number of users the
/// lookup found plus the map, the single user id and the cursor.
proof fn lemma_bind_count_bound(p: ChangelogQueryParams, found: Option<Seq<Seq<char>>>)
    requires
        !nickname_unresolved(p, found),
    ensures
        filter_bind_count(p, found) <= 3 + (match found {
            Some(ids) => ids.len(),
            None => 0,
        }),
{
    let a = mode_filter(p.sp, p.coop);
    let b = demo_filter(p.has_demo);
    let c = video_filter(p.yt);
    let d = first_place_filter(p.wr_gain);
    let e = map_filter(p.chamber);
    let f = user_filter(p.profile_number, p.nick_name, found);
    let g = cursor_filter(p.first, p.last);
    lemma_all_binds_concat(a, b);
    lemma_all_binds_concat(a + b, c);
    lemma_all_binds_concat(a + b + c, d);
    lemma_all_binds_concat(a + b + c + d, e);
    lemma_all_binds_concat(a + b + c + d + e, f);
    lemma_all_binds_concat(a + b + c + d + e + f, g);
    lemma_at_most_one_binds(a);
    lemma_at_most_one_binds(b);
    lemma_at_most_one_binds(c);
    lemma_at_most_one_binds(d);
    lemma_at_most_one_binds(e);
    lemma_at_most_one_binds(f);
    lemma_at_most_one_binds(g);
}

/// Composes the changelog query for `params`: its predicates joined by `AND`
/// after one `WHERE`, newest first with missing timestamps last, and capped at
/// `params.limit` (200 when absent). `found` is what the nickname lookup
/// returned; when the parameters name users by nickname alone and it holds
/// nobody, composition fails with [`FilterError::NoUsersFound`].
pub fn build_filtered_changelog(params: &ChangelogQueryParams, found: Option<Vec<String>>) -> (r:
    Result<ComposedQuery, FilterError>)
    requires
        found is Some ==> found.unwrap()@.len() + 4 < usize::MAX,
    ensures
        r is Err <==> nickname_unresolved(*params, found_view(found)),
        r is Err ==> r == Err::<ComposedQuery, FilterError>(FilterError::NoUsersFound),
        r is Ok ==> r.unwrap().sql@ == query_sql(
            query_filters(*params, found_view(found)),
            limit_of(*params),
        ),
        r is Ok ==> binds_view(r.unwrap().binds@) == all_binds(
            query_filters(*params, found_view(found)),
        ),
{
    let ghost fv = found_view(found);
    let preds = match compose_filters(params, found) {
        Ok(v) => v,
        Err(e) => {
            return Err(e);
        },
    };
    proof {
        lemma_bind_count_bound(*params, fv);
    }
    let limit = match params.limit {
        Some(l) => l,
        None => DEFAULT_LIMIT,
    };
    Ok(render_query(&preds, limit))
}

impl Default for ChangelogQueryParams {
    /// Both modes, the default page size, no other filter.
    fn default() -> (r: Self)
        ensures
            r.limit == Some(DEFAULT_LIMIT),
            r.sp == Some(true),
            r.coop == Some(true),
            r.nick_name is None,
            r.profile_number is None,
            r.chamber is None,
            r.wr_gain is None,
            r.has_demo is None,
            r.yt is None,
            r.first is None,
            r.last is None,
    {
        ChangelogQueryParams {
            limit: Some(DEFAULT_LIMIT),
            nick_name: None,
            profile_number: None,
            chamber: None,
            sp: Some(true),
            coop: Some(true),
            wr_gain: None,
            has_demo: None,
            yt: None,
            first: None,
            last: None,
        }
    }
}

/// When both cursors are given, the query keeps only ids above `first`: it has
/// that predicate and no `last` bound at all, and its predicates, text and
/// bound values are those of the same parameters without `last`.
pub proof fn lemma_first_cursor_wins(p: ChangelogQueryParams, found: Option<Seq<Seq<char>>>)
    requires
        p.first is Some,
        p.last is Some,
    ensures
        query_filters(p, found).contains(PredicateView::IdAbove(p.first.unwrap())),
        forall|i: int|
            0 <= i < query_filters(p, found).len() ==> !(#[trigger] query_filters(p, found)[i] is IdBelow),
        query_filters(p, found) == query_filters((ChangelogQueryParams { last: None, ..p }), found),
        query_sql(query_filters(p, found), limit_of(p)) == query_sql(
            query_filters((ChangelogQueryParams { last: None, ..p }), found),
            limit_of((ChangelogQueryParams { last: None, ..p })),
        ),
        all_binds(query_filters(p, found)) == all_binds(
            query_filters((ChangelogQueryParams { last: None, ..p }), found),
        ),
{
    let q = query_filters(p, found);
    assert(q[q.len() - 1] == PredicateView::IdAbove(p.first.unwrap()));
    let without_last = ChangelogQueryParams { last: None, ..p };
    assert(query_filters(p, found) =~= query_filters(without_last, found));
}

/// Exactly one of the two mode flags is `false`.
pub open spec fn mode_excluded(sp: Option<bool>, coop: Option<bool>) -> bool {
    (sp == Some(false)) != (coop == Some(false))
}

pub open spec fn count_if(b: bool) -> nat {
    if b {
        1
    } else {
        0
    }
}

/// How many of the optional filters of `p` constrain the result: the two mode
/// flags together count once, a user id and a nickname count once, and so do
/// the two cursors.
pub open spec fn consulted_count(p: ChangelogQueryParams) -> nat {
    count_if(mode_excluded(p.sp, p.coop)) + count_if(p.has_demo is Some) + count_if(p.yt is Some)
        + count_if(p.wr_gain == Some(true)) + count_if(p.chamber is Some) + count_if(
        p.profile_number is Some || p.nick_name is Some,
    ) + count_if(p.first is Some || p.last is Some)
}

/// The query has one predicate per optional filter that constrains the result.
pub proof fn lemma_predicate_count(p: ChangelogQueryParams, found: Option<Seq<Seq<char>>>)
    ensures
        query_filters(p, found).len() == consulted_count(p),
{
}

/// A nickname that matched several users gives one predicate, which names all
/// of them and is written as a single parenthesised disjunction of equality
/// checks.
pub proof fn lemma_several_matches_one_group(
    p: ChangelogQueryParams,
    ids: Seq<Seq<char>>,
    k: nat,
)
    requires
        p.profile_number is None,
        p.nick_name is Some,
        ids.len() > 1,
    ensures
        exists|i: int|
            0 <= i < query_filters(p, Some(ids)).len() && query_filters(p, Some(ids))[i]
                == PredicateView::Users(ids) && forall|j: int|
                0 <= j < query_filters(p, Some(ids)).len() && j != i ==> !(#[trigger] query_filters(
                    p,
                    Some(ids),
                )[j] is Users),
        predicate_sql(PredicateView::Users(ids), k) == "("@ + user_terms(ids.len(), k) + ")"@,
{
    let q = query_filters(p, Some(ids));
    let before = mode_filter(p.sp, p.coop) + demo_filter(p.has_demo) + video_filter(p.yt)
        + first_place_filter(p.wr_gain) + map_filter(p.chamber);
    let i = before.len() as int;
    assert(q[i] == PredicateView::Users(ids));
    assert forall|j: int| 0 <= j < q.len() && j != i implies !(#[trigger] q[j] is Users) by {
        if j < i {
            assert(q[j] == before[j]);
        } else {
            assert(j == q.len() - 1);
        }
    }
}

} // verus!
