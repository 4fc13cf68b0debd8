//! What the broker checks and computes before it starts: what its configuration
//! says, that it has a trigger, how long sessions live, and which channels may
//! use it.
use std::collections::HashSet;
use vstd::prelude::*;
use vstd::slice::slice_subrange;
use crate::text;

verus! {

/// What is wrong with a configuration without any trigger.
pub open spec fn no_trigger() -> Seq<char> {
    "no trigger configured -- set [discord] bot_token or [http] enabled = true"@
}

/// What is wrong with an HTTP trigger that anybody may use.
pub open spec fn no_token() -> Seq<char> {
    "http trigger is enabled without a token -- set http.token in config. If running without auth is intentional (e.g. local development), set http.token = \"none\" and handle access control at the network layer."@
}

/// What is wrong with a configuration, if anything is.
pub open spec fn config_error(discord: bool, http_enabled: bool, http_token: Seq<char>) -> Option<
    Seq<char>,
> {
    if !discord && !http_enabled {
        Some(no_trigger())
    } else if http_enabled && http_token.len() == 0 {
        Some(no_token())
    } else {
        None
    }
}

/// Checks that some trigger is configured, and that the HTTP trigger has a
/// token if it is enabled.
pub fn check_config(discord: bool, http_enabled: bool, http_token: &str) -> (r: Result<(), String>)
    ensures
        match r {
            Ok(_) => config_error(discord, http_enabled, http_token@) is None,
            Err(e) => config_error(discord, http_enabled, http_token@) == Some(e@),
        },
{
    if !discord && !http_enabled {
        return Err(
            "no trigger configured -- set [discord] bot_token or [http] enabled = true".to_owned(),
        );
    }
    if http_enabled && http_token.is_empty() {
        return Err(
            "http trigger is enabled without a token -- set http.token in config. If running without auth is intentional (e.g. local development), set http.token = \"none\" and handle access control at the network layer.".to_owned(),
        );
    }
    Ok(())
}

/// The value of a variable: that of the first of the pairs with its name, and
/// nothing if there is none.
pub open spec fn variable(vars: Seq<(String, String)>, name: Seq<char>) -> Seq<char>
    decreases vars.len(),
{
    if vars.len() == 0 {
        seq![]
    } else if vars[0].0@ == name {
        vars[0].1@
    } else {
        variable(vars.drop_first(), name)
    }
}

/// `s` with the value of the variable in the place of each `${name}`.
pub open spec fn expanded(s: Seq<char>, vars: Seq<(String, String)>) -> Seq<char>
    decreases s.len(),
{
    match text::find(s, "${"@) {
        Some(k) => {
            let behind = s.skip(k + 2);
            match text::find(behind, "}"@) {
                Some(e) => if 0 <= k && k + 2 <= s.len() && 0 <= e && e < behind.len() {
                    s.take(k) + variable(vars, behind.take(e)) + expanded(behind.skip(e + 1), vars)
                } else {
                    s
                },
                None => s,
            }
        },
        None => s,
    }
}

/// The value of a variable.
fn variable_of<'a>(vars: &'a [(String, String)], name: &str) -> (r: &'a str)
    ensures
        r@ == variable(vars@, name@),
{
    assert(vars@.skip(0) =~= vars@);
    for i in 0..vars.len()
        invariant
            variable(vars@.skip(i as int), name@) == variable(vars@, name@),
    {
        assert(vars@.skip(i as int)[0] == vars@[i as int]);
        assert(vars@.skip(i as int).drop_first() =~= vars@.skip(i + 1));
        if text::same(vars[i].0.as_str(), name) {
            return vars[i].1.as_str();
        }
    }
    let nothing = "";
    proof {
        reveal_strlit("");
        assert(nothing@ =~= seq![]);
    }
    nothing
}

/// Puts the values of variables into a configuration, in the place of each
/// `${name}`. A variable that is not set has an empty value.
pub fn expand_variables(s: &str, vars: &[(String, String)]) -> (r: String)
    ensures
        r@ == expanded(s@, vars@),
{
    let all = text::chars_of(s);
    let open = text::chars_of("${");
    let close = text::chars_of("}");
    proof {
        reveal_strlit("${");
        reveal_strlit("}");
    }
    let total: usize = all.len();
    let mut r = String::new();
    let mut at: usize = 0;
    assert(all@.skip(0) =~= s@);
    assert(r@ + expanded(s@, vars@) =~= expanded(s@, vars@));
    loop
        invariant
            all@ == s@,
            total == all@.len(),
            at <= total,
            open@ == "${"@,
            close@ == "}"@,
            open@.len() == 2,
            close@.len() == 1,
            r@ + expanded(s@.skip(at as int), vars@) == expanded(s@, vars@),
        decreases total - at,
    {
        let rest = slice_subrange(all.as_slice(), at, total);
        assert(rest@ =~= s@.skip(at as int));
        let ghost before = r@;
        proof {
            text::lemma_find_from(rest@, "${"@, 0);
        }
        let k: usize = match text::position_of(rest, open.as_slice()) {
            Some(k) => k,
            None => {
                r.append(text::string_of(rest).as_str());
                return r;
            },
        };
        let behind = slice_subrange(rest, k + 2, rest.len());
        assert(behind@ =~= rest@.skip(k + 2));
        proof {
            text::lemma_find_from(behind@, "}"@, 0);
        }
        match text::position_of(behind, close.as_slice()) {
            Some(e) => {
                let name = text::string_of(slice_subrange(behind, 0, e));
                assert(name@ =~= behind@.take(e as int));
                let head = text::string_of(slice_subrange(rest, 0, k));
                assert(head@ =~= rest@.take(k as int));
                r.append(head.as_str());
                r.append(variable_of(vars, name.as_str()));
                assert(behind@.skip(e + 1) =~= s@.skip(at + k + 2 + e + 1));
                at = at + k + 2 + e + 1;
                assert(r@ + expanded(s@.skip(at as int), vars@) =~= before + expanded(
                    rest@,
                    vars@,
                ));
            },
            None => {
                r.append(text::string_of(rest).as_str());
                return r;
            },
        }
    }
}

/// A variable has the value of the first pair with its name, and an empty value
/// if there is none.
pub proof fn law_value_of_a_variable(
    before: Seq<(String, String)>,
    pair: (String, String),
    behind: Seq<(String, String)>,
    name: Seq<char>,
)
    requires
        forall|i: int| 0 <= i < before.len() ==> (#[trigger] before[i]).0@ != name,
    ensures
        pair.0@ == name ==> variable(before + seq![pair] + behind, name) == pair.1@,
        variable(before, name) == Seq::<char>::empty(),
    decreases before.len(),
{
    let all = before + seq![pair] + behind;
    if before.len() > 0 {
        let rest = before.drop_first();
        assert forall|i: int| 0 <= i < rest.len() implies (#[trigger] rest[i]).0@ != name by {
            assert(rest[i] == before[i + 1]);
        }
        law_value_of_a_variable(rest, pair, behind, name);
        assert(all[0] == before[0]);
        assert(all.drop_first() =~= rest + seq![pair] + behind);
    } else {
        assert(all[0] == pair);
    }
}

/// A variable's value comes in the place of its mention, and nowhere else: what
/// stands before the first mention stays, and what stands behind it is taken
/// alike.
pub proof fn law_variable_is_put_in(
    before: Seq<char>,
    name: Seq<char>,
    behind: Seq<char>,
    vars: Seq<(String, String)>,
)
    requires
        text::find(before + "${"@ + name + "}"@ + behind, "${"@) == Some(before.len() as int),
        text::find(name + "}"@ + behind, "}"@) == Some(name.len() as int),
    ensures
        expanded(before + "${"@ + name + "}"@ + behind, vars) == before + variable(vars, name)
            + expanded(behind, vars),
{
    reveal_strlit("${");
    reveal_strlit("}");
    let s = before + "${"@ + name + "}"@ + behind;
    let k = before.len() as int;
    let rest = name + "}"@ + behind;
    assert(s.skip(k + 2) =~= rest);
    assert(s.take(k) =~= before);
    assert(rest.take(name.len() as int) =~= name);
    assert(rest.skip(name.len() as int + 1) =~= behind);
}

/// A mention that is not closed stays as it is.
pub proof fn law_open_mention_stays(
    before: Seq<char>,
    behind: Seq<char>,
    vars: Seq<(String, String)>,
)
    requires
        text::find(before + "${"@ + behind, "${"@) == Some(before.len() as int),
        !text::contains(behind, "}"@),
    ensures
        expanded(before + "${"@ + behind, vars) == before + "${"@ + behind,
{
    reveal_strlit("${");
    let s = before + "${"@ + behind;
    assert(s.skip(before.len() as int + 2) =~= behind);
    text::lemma_find_from(behind, "}"@, 0);
}

/// What is wrong with a configuration: that it has no trigger at all, and else
/// that its HTTP trigger has no token, whether Discord is configured or not.
pub proof fn law_config_errors(discord: bool, http_enabled: bool, token: Seq<char>)
    ensures
        ({
            let e = config_error(discord, http_enabled, token);
            &&& !discord && !http_enabled ==> e == Some(
                "no trigger configured -- set [discord] bot_token or [http] enabled = true"@,
            )
            &&& http_enabled && token.len() == 0 ==> e == Some(
                "http trigger is enabled without a token -- set http.token in config. If running without auth is intentional (e.g. local development), set http.token = \"none\" and handle access control at the network layer."@,
            )
            &&& http_enabled && token.len() > 0 ==> e is None
            &&& discord && !http_enabled ==> e is None
        }),
{
}

/// A configuration that names no variable stays as it is.
pub proof fn law_plain_text_is_not_expanded(s: Seq<char>, vars: Seq<(String, String)>)
    requires
        !text::contains(s, "${"@),
    ensures
        expanded(s, vars) == s,
{
    text::lemma_find_from(s, "${"@, 0);
}

/// So many hours, in seconds.
pub open spec fn hours_in_seconds(hours: nat) -> nat {
    hours * 3600
}

/// An hour has 3600 seconds, and so has each further one.
pub proof fn law_hours_in_seconds(hours: nat)
    ensures
        hours_in_seconds(0) == 0,
        hours_in_seconds(hours + 1) == hours_in_seconds(hours) + 3600,
{
}

/// How long an idle session lives, in seconds.
pub fn session_ttl_secs(hours: u64) -> (r: u64)
    requires
        hours * 3600 <= u64::MAX,
    ensures
        r == hours * 3600,
        r == hours_in_seconds(hours as nat),
{
    hours * 3600
}

/// The channels that may use the bot: the numbers among the configured ids.
pub open spec fn channels(ids: Seq<Seq<char>>) -> Set<u64>
    decreases ids.len(),
{
    if ids.len() == 0 {
        Set::empty()
    } else {
        match text::parse_u64(ids.last()) {
            Some(id) => channels(ids.drop_last()).insert(id),
            None => channels(ids.drop_last()),
        }
    }
}

/// The channels that may use the bot: the numbers among the configured ids.
/// What is no number is passed over.
pub fn allowed_channels(ids: &Vec<String>) -> (r: HashSet<u64>)
    ensures
        r@ == channels(text::string_views(ids@)),
{
    broadcast use vstd::std_specs::hash::group_hash_axioms;

    let mut r: HashSet<u64> = HashSet::new();
    let ghost views = text::string_views(ids@);
    for i in 0..ids.len()
        invariant
            views == text::string_views(ids@),
            r@ == channels(views.take(i as int)),
    {
        proof {
            assert(views.take(i + 1).drop_last() =~= views.take(i as int));
            assert(views.take(i + 1).last() == ids@[i as int]@);
        }
        if let Some(id) = text::u64_of(ids[i].as_str()) {
            r.insert(id);
        }
    }
    assert(views.take(ids@.len() as int) =~= views);
    r
}

/// A channel may use the bot exactly if one of the configured ids is its
/// number.
pub proof fn law_allowed_channels(ids: Seq<Seq<char>>, id: u64)
    ensures
        channels(ids).contains(id) <==> exists|i: int|
            0 <= i < ids.len() && text::parse_u64(#[trigger] ids[i]) == Some(id),
    decreases ids.len(),
{
    if ids.len() > 0 {
        let rest = ids.drop_last();
        law_allowed_channels(rest, id);
        assert(ids.last() == ids[ids.len() - 1]);
        if channels(rest).contains(id) {
            let i = choose|i: int|
                0 <= i < rest.len() && text::parse_u64(#[trigger] rest[i]) == Some(id);
            assert(ids[i] == rest[i]);
        }
        assert forall|i: int|
            0 <= i < ids.len() && text::parse_u64(#[trigger] ids[i]) == Some(
                id,
            ) implies channels(ids).contains(id) by {
            if i < rest.len() {
                assert(rest[i] == ids[i]);
            }
        }
    }
}

/// A channel id that is written in decimal is read back as the same number.
pub proof fn law_decimal_id_is_read_back(id: u64)
    ensures
        text::parse_u64(text::decimal(id as nat)) == Some(id),
{
    text::lemma_decimal_digits(id as nat);
    text::lemma_decimal_number(id as nat);
}

/// The HTTP trigger never runs without a token: what passes the check has some
/// trigger, and a token wherever the HTTP trigger is enabled.
pub proof fn law_checked_config_is_usable(discord: bool, http_enabled: bool, token: Seq<char>)
    ensures
        config_error(discord, http_enabled, token) is None <==> (discord || http_enabled) && (
        http_enabled ==> token.len() > 0),
{
}

} // verus!
