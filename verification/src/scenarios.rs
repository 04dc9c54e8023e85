//! Scenarios: synthetic worlds of entities, observed facts and implications,
//! written to the store to train and to test on. The facts are drawn at
//! random; each scenario has a function that takes the draws as arguments and
//! says exactly what it writes for them.

pub mod two_var;
pub mod dating_simple;
pub mod dating_triangle;
pub mod long_and;
pub mod mid_chain;
pub mod dating1;
pub mod dating_prob2;
pub mod one_var;
pub mod factory;
pub mod exercise;

use rand::Rng;
use vstd::prelude::*;
use crate::creators::{
    conjunction, constant, obj, predicate, proposition, proposition_spec, variable,
};
use crate::graph::{domains_key, implication_commands, relations_key, InferenceGraph};
use crate::objects::{
    domain_text, entry_views, proposition_views, role_map_views, role_views, ArgumentView, Domain,
    FilledRole, Implication, ImplicationView, Proposition, PropositionView, Relation, RoleMap,
    RoleView, VariableArgument,
};
use crate::proposition_db::{belief_command, boolean_text, probabilities_key, stored_belief, RedisBeliefTable};
use crate::search::{existence_implication, implication_views};
use crate::store::{
    append_commands, clears_list, command_views, lemma_list_read_concat, lemma_list_read_none,
    lemma_map_read_same, lemma_map_read_skip, lemma_map_read_write, list_read, push_command,
    qualified_key, writes_entry, CommandView, PayloadView, RelationView, StoreCommand,
};
use crate::objects::{lemma_texts_differ_at, proposition_text, role_text};
use crate::creators::relation_role;
use crate::text::{decimal_string, decimal_text};
use crate::train::{
    optional_views, push_optional, test_commands, test_queue, training_commands, training_queue,
    TrainingPlan,
};

verus! {

/// What writes a scenario into the store.
pub trait ScenarioMaker {
    /// The commands that write the scenario into `namespace`, with
    /// `entities_per_domain` members.
    fn setup_scenario(&self, namespace: &str, entities_per_domain: i32) -> Vec<StoreCommand>;
}

/// Draws `true` with probability `numerator / denominator`, by the thread's
/// random generator (`rand::Rng::gen_ratio` on `rand::thread_rng()`). Its
/// source gives `false` for a zero numerator and `true` when the numerator
/// equals the denominator; between those, nothing is promised of one draw.
#[verifier::external_body]
pub(crate) fn weighted_cointoss(numerator: u32, denominator: u32) -> (r: bool)
    requires
        0 < denominator,
        numerator <= denominator,
    ensures
        numerator == 0 ==> !r,
        numerator == denominator ==> r,
{
    rand::thread_rng().gen_ratio(numerator, denominator)
}

/// How many members a scenario makes for a requested count.
pub open spec fn member_count(n: i32) -> nat {
    if n <= 0 {
        0
    } else {
        n as nat
    }
}

/// `test` for a test member, `train` for a training member.
pub open spec fn prefix_text(is_test: bool) -> Seq<char> {
    if is_test {
        "test"@
    } else {
        "train"@
    }
}

/// The name of the `i`-th member of `domain`: `prefix_DomainI`.
pub open spec fn member_name(is_test: bool, domain: Domain, i: nat) -> Seq<char> {
    prefix_text(is_test) + "_"@ + domain_text(domain) + decimal_text(i)
}

/// Registers the domain `d` in namespace `ns`.
pub open spec fn register_domain_command(ns: Seq<char>, d: Domain) -> CommandView {
    CommandView::SetAdd {
        key: qualified_key(ns, domains_key()),
        member: PayloadView::Text(domain_text(d)),
    }
}

/// Records the relation `name` over the domains `types` in namespace `ns`.
pub open spec fn register_relation_command(ns: Seq<char>, name: Seq<char>, types: Seq<Domain>) -> CommandView {
    CommandView::SetAdd {
        key: qualified_key(ns, relations_key()),
        member: PayloadView::Relation(RelationView { name, types }),
    }
}

/// The relation `name` over one domain.
pub fn unary_relation(name: &str, d: Domain) -> (r: Relation)
    ensures
        r@ == (RelationView { name: name@, types: seq![d] }),
{
    let mut types: Vec<VariableArgument> = Vec::new();
    types.push(VariableArgument { domain: d });
    let r = Relation { relation_name: String::from_str(name), types };
    assert(r@.types =~= seq![d]);
    r
}

/// The relation `name` over two domains.
pub fn binary_relation(name: &str, d1: Domain, d2: Domain) -> (r: Relation)
    ensures
        r@ == (RelationView { name: name@, types: seq![d1, d2] }),
{
    let mut types: Vec<VariableArgument> = Vec::new();
    types.push(VariableArgument { domain: d1 });
    types.push(VariableArgument { domain: d2 });
    let r = Relation { relation_name: String::from_str(name), types };
    assert(r@.types =~= seq![d1, d2]);
    r
}

/// Records the observation `b` of `p` when `cond`.
pub open spec fn belief_if(ns: Seq<char>, cond: bool, p: PropositionView, b: bool) -> Seq<CommandView> {
    if cond {
        seq![belief_command(ns, p, b)]
    } else {
        Seq::empty()
    }
}

/// The record of an observation of `p`, when `cond`.
pub fn store_belief_if(table: &RedisBeliefTable, cond: bool, p: &Proposition, b: bool) -> (r: Option<StoreCommand>)
    ensures
        optional_views(r) == belief_if(table.namespace@, cond, p@, b),
{
    if cond {
        Some(table.store_proposition_boolean(p, b))
    } else {
        None
    }
}

/// An observed fact written as: its observation, its training entry, the
/// existence implication that concludes its pattern.
pub open spec fn observed_fact(ns: Seq<char>, p: PropositionView, b: bool, is_training: bool) -> Seq<CommandView> {
    seq![belief_command(ns, p, b)] + training_commands(ns, is_training, p) + implication_commands(
        ns,
        existence_implication(p),
    )
}

/// Writes an observed fact: its observation, its training entry, its
/// existence implication.
pub fn observe_fact(
    graph: &InferenceGraph,
    table: &RedisBeliefTable,
    plan: &TrainingPlan,
    p: &Proposition,
    b: bool,
    is_training: bool,
) -> (r: Vec<StoreCommand>)
    requires
        table.namespace@ == graph.namespace@,
        plan.namespace@ == graph.namespace@,
    ensures
        command_views(r@) == observed_fact(graph.namespace@, p@, b, is_training),
{
    let mut out: Vec<StoreCommand> = Vec::new();
    push_command(&mut out, table.store_proposition_boolean(p, b));
    assert(command_views(out@) =~= seq![belief_command(graph.namespace@, p@, b)]);
    push_optional(&mut out, plan.maybe_add_to_training(is_training, p));
    append_commands(&mut out, graph.ensure_existence_backlinks_for_proposition(p));
    out
}

/// The function of level `level` of a channel: the channel's name and the
/// level.
pub open spec fn level_function(channel: Seq<char>, level: nat) -> Seq<char> {
    channel + decimal_text(level)
}

/// The function of level `level` of a channel.
pub fn level_function_string(channel: &str, level: u32) -> (s: String)
    ensures
        s@ == level_function(channel@, level as nat),
{
    let mut s = String::from_str(channel);
    let n = decimal_string(level);
    s.append(n.as_str());
    s
}

/// What one level of a channel writes for the man `name`: the existence
/// implication at level 0, the observation `b`, the training entry, and the
/// test entry at level `test_at` of a test member.
pub open spec fn chain_level(
    ns: Seq<char>,
    channel: Seq<char>,
    name: Seq<char>,
    b: bool,
    is_test: bool,
    test_at: int,
    level: nat,
) -> Seq<CommandView> {
    let p = unary_fact(level_function(channel, level), Domain::Jack, name);
    (if level == 0 {
        implication_commands(ns, existence_implication(p))
    } else {
        Seq::empty()
    }).push(belief_command(ns, p, b)) + training_commands(ns, !is_test, p) + test_commands(
        ns,
        is_test && level == test_at,
        p,
    )
}

/// What the first `n` levels of a channel write.
pub open spec fn chain_levels(
    ns: Seq<char>,
    channel: Seq<char>,
    name: Seq<char>,
    b: bool,
    is_test: bool,
    test_at: int,
    n: nat,
) -> Seq<CommandView>
    decreases n,
{
    if n == 0 {
        Seq::empty()
    } else {
        chain_levels(ns, channel, name, b, is_test, test_at, (n - 1) as nat) + chain_level(
            ns,
            channel,
            name,
            b,
            is_test,
            test_at,
            (n - 1) as nat,
        )
    }
}

/// Writes the first `n` levels of a channel for the man `name`.
pub fn chain_levels_commands(
    graph: &InferenceGraph,
    table: &RedisBeliefTable,
    plan: &TrainingPlan,
    channel: &str,
    name: &str,
    b: bool,
    is_test: bool,
    test_at: i64,
    n: u32,
) -> (r: Vec<StoreCommand>)
    requires
        table.namespace@ == graph.namespace@,
        plan.namespace@ == graph.namespace@,
    ensures
        command_views(r@) == chain_levels(
            graph.namespace@,
            channel@,
            name@,
            b,
            is_test,
            test_at as int,
            n as nat,
        ),
{
    let mut out: Vec<StoreCommand> = Vec::new();
    let mut level: u32 = 0;
    while level < n
        invariant
            level <= n,
            table.namespace@ == graph.namespace@,
            plan.namespace@ == graph.namespace@,
            command_views(out@) == chain_levels(
                graph.namespace@,
                channel@,
                name@,
                b,
                is_test,
                test_at as int,
                level as nat,
            ),
        decreases n - level,
    {
        let function = level_function_string(channel, level);
        let p = unary_proposition(function.as_str(), Domain::Jack, name);
        let mut block: Vec<StoreCommand> = if level == 0 {
            graph.ensure_existence_backlinks_for_proposition(&p)
        } else {
            Vec::new()
        };
        proof {
            if level != 0 {
                assert(command_views(block@) =~= Seq::empty());
            }
        }
        push_command(&mut block, table.store_proposition_boolean(&p, b));
        push_optional(&mut block, plan.maybe_add_to_training(!is_test, &p));
        let at_test = is_test && (level as i64) == test_at;
        push_optional(&mut block, plan.maybe_add_to_test(at_test, &p));
        append_commands(&mut out, block);
        level += 1;
    }
    out
}

/// The implication from level `level` of a channel to the next.
pub open spec fn chain_link(channel: Seq<char>, level: nat) -> ImplicationView {
    ImplicationView {
        premise: seq![unary_pattern(level_function(channel, level), Domain::Jack)],
        conclusion: unary_pattern(level_function(channel, level + 1), Domain::Jack),
        role_maps: seq![seq![("sub"@, "sub"@)]],
    }
}

/// The links of a channel from level 0 up to level `n`.
pub open spec fn chain_links(channel: Seq<char>, n: nat) -> Seq<ImplicationView> {
    Seq::new(n, |l: int| chain_link(channel, l as nat))
}

/// Appends the links of a channel from level 0 up to level `n` to `out`.
pub fn push_chain_links(out: &mut Vec<Implication>, channel: &str, n: u32)
    requires
        n < u32::MAX,
    ensures
        implication_views(final(out)@) == implication_views(old(out)@) + chain_links(channel@, n as nat),
{
    let ghost start = implication_views(out@);
    let mut level: u32 = 0;
    while level < n
        invariant
            level <= n,
            n < u32::MAX,
            implication_views(out@) == start + chain_links(channel@, level as nat),
        decreases n - level,
    {
        let mut premise: Vec<Proposition> = Vec::new();
        let f1 = level_function_string(channel, level);
        premise.push(unary_predicate(f1.as_str(), Domain::Jack));
        let f2 = level_function_string(channel, level + 1);
        let mut maps: Vec<RoleMap> = Vec::new();
        maps.push(role_map_one("sub", "sub"));
        proof {
            assert(proposition_views(premise@) =~= chain_link(channel@, level as nat).premise);
            assert(role_map_views(maps@) =~= chain_link(channel@, level as nat).role_maps);
        }
        let link = crate::creators::implication(
            conjunction(premise),
            unary_predicate(f2.as_str(), Domain::Jack),
            maps,
        );
        let ghost before = out@;
        out.push(link);
        proof {
            assert(implication_views(out@) =~= implication_views(before).push(
                chain_link(channel@, level as nat),
            ));
            assert(chain_links(channel@, (level + 1) as nat) =~= chain_links(
                channel@,
                level as nat,
            ).push(chain_link(channel@, level as nat)));
        }
        level += 1;
    }
}

/// The name of the `i`-th member of `domain`.
pub fn member_name_string(is_test: bool, domain: Domain, i: u32) -> (s: String)
    ensures
        s@ == member_name(is_test, domain, i as nat),
{
    let mut s = if is_test {
        String::from_str("test")
    } else {
        String::from_str("train")
    };
    s.append("_");
    let d = domain.to_string();
    s.append(d.as_str());
    let n = decimal_string(i);
    s.append(n.as_str());
    s
}

/// The `sub` role filled by the entity `name` of `domain`.
pub open spec fn sub_entity(domain: Domain, name: Seq<char>) -> RoleView {
    RoleView { name: "sub"@, arg: ArgumentView::Constant(domain, name) }
}

/// The `obj` role filled by the entity `name` of `domain`.
pub open spec fn obj_entity(domain: Domain, name: Seq<char>) -> RoleView {
    RoleView { name: "obj"@, arg: ArgumentView::Constant(domain, name) }
}

/// The `sub` role filled by a variable of `domain`.
pub open spec fn sub_variable(domain: Domain) -> RoleView {
    RoleView { name: "sub"@, arg: ArgumentView::Variable(domain) }
}

/// The `obj` role filled by a variable of `domain`.
pub open spec fn obj_variable(domain: Domain) -> RoleView {
    RoleView { name: "obj"@, arg: ArgumentView::Variable(domain) }
}

/// `function(sub: name)`.
pub open spec fn unary_fact(function: Seq<char>, domain: Domain, name: Seq<char>) -> PropositionView {
    proposition_spec(function, seq![sub_entity(domain, name)])
}

/// `function(sub: n1, obj: n2)`.
pub open spec fn binary_fact(function: Seq<char>, d1: Domain, n1: Seq<char>, d2: Domain, n2: Seq<char>) -> PropositionView {
    proposition_spec(function, seq![sub_entity(d1, n1), obj_entity(d2, n2)])
}

/// `function(sub: ?domain)`.
pub open spec fn unary_pattern(function: Seq<char>, domain: Domain) -> PropositionView {
    proposition_spec(function, seq![sub_variable(domain)])
}

/// `function(sub: ?d1, obj: ?d2)`.
pub open spec fn binary_pattern(function: Seq<char>, d1: Domain, d2: Domain) -> PropositionView {
    proposition_spec(function, seq![sub_variable(d1), obj_variable(d2)])
}

/// `function(sub: name)`.
pub fn unary_proposition(function: &str, domain: Domain, name: &str) -> (p: Proposition)
    ensures
        p@ == unary_fact(function@, domain, name@),
{
    let mut roles: Vec<FilledRole> = Vec::new();
    roles.push(crate::creators::sub(constant(domain, String::from_str(name))));
    proof {
        assert(role_views(roles@) =~= seq![sub_entity(domain, name@)]);
    }
    proposition(String::from_str(function), roles)
}

/// `function(sub: n1, obj: n2)`.
pub fn binary_proposition(function: &str, d1: Domain, n1: &str, d2: Domain, n2: &str) -> (p:
    Proposition)
    ensures
        p@ == binary_fact(function@, d1, n1@, d2, n2@),
{
    let mut roles: Vec<FilledRole> = Vec::new();
    roles.push(crate::creators::sub(constant(d1, String::from_str(n1))));
    roles.push(obj(constant(d2, String::from_str(n2))));
    proof {
        assert(role_views(roles@) =~= seq![sub_entity(d1, n1@), obj_entity(d2, n2@)]);
    }
    proposition(String::from_str(function), roles)
}

/// `function(sub: ?domain)`.
pub fn unary_predicate(function: &str, domain: Domain) -> (p: Proposition)
    ensures
        p@ == unary_pattern(function@, domain),
{
    let mut roles: Vec<FilledRole> = Vec::new();
    roles.push(crate::creators::sub(variable(domain)));
    proof {
        assert(role_views(roles@) =~= seq![sub_variable(domain)]);
    }
    predicate(String::from_str(function), roles)
}

/// `function(sub: ?d1, obj: ?d2)`.
pub fn binary_predicate(function: &str, d1: Domain, d2: Domain) -> (p: Proposition)
    ensures
        p@ == binary_pattern(function@, d1, d2),
{
    let mut roles: Vec<FilledRole> = Vec::new();
    roles.push(crate::creators::sub(variable(d1)));
    roles.push(obj(variable(d2)));
    proof {
        assert(role_views(roles@) =~= seq![sub_variable(d1), obj_variable(d2)]);
    }
    predicate(String::from_str(function), roles)
}

/// The role map with the one entry `from -> to`.
pub fn role_map_one(from: &str, to: &str) -> (r: RoleMap)
    ensures
        r@ == seq![(from@, to@)],
{
    let mut v: Vec<(String, String)> = Vec::new();
    v.push((String::from_str(from), String::from_str(to)));
    proof {
        assert(entry_views(v@) =~= seq![(from@, to@)]);
    }
    RoleMap::new(v)
}

/// The role map with the entries `f1 -> t1` and `f2 -> t2`.
pub fn role_map_two(f1: &str, t1: &str, f2: &str, t2: &str) -> (r: RoleMap)
    requires
        f1@ != f2@,
    ensures
        r@ == seq![(f1@, t1@), (f2@, t2@)],
{
    let mut v: Vec<(String, String)> = Vec::new();
    v.push((String::from_str(f1), String::from_str(t1)));
    v.push((String::from_str(f2), String::from_str(t2)));
    proof {
        assert(entry_views(v@) =~= seq![(f1@, t1@), (f2@, t2@)]);
    }
    RoleMap::new(v)
}

/// A level of a channel writes one observation: that of its own level.
proof fn lemma_chain_level_writes(
    ns: Seq<char>,
    channel: Seq<char>,
    name: Seq<char>,
    b: bool,
    is_test: bool,
    test_at: int,
    level: nat,
    field: Seq<char>,
)
    ensures
        forall|k: int|
            0 <= k < chain_level(ns, channel, name, b, is_test, test_at, level).len() && writes_entry(
                #[trigger] chain_level(ns, channel, name, b, is_test, test_at, level)[k],
                qualified_key(ns, probabilities_key()),
                field,
            ) ==> chain_level(ns, channel, name, b, is_test, test_at, level)[k] == belief_command(
                ns,
                unary_fact(level_function(channel, level), Domain::Jack, name),
                b,
            ),
{
}

/// Once the first `n` levels of a channel have run, the store holds the
/// channel's draw as the observation of each of those levels, and those
/// commands write no other observation.
pub proof fn lemma_chain_levels_beliefs(
    ns: Seq<char>,
    channel: Seq<char>,
    name: Seq<char>,
    b: bool,
    is_test: bool,
    test_at: int,
    n: nat,
)
    ensures
        forall|l: nat|
            l < n ==> stored_belief(
                ns,
                chain_levels(ns, channel, name, b, is_test, test_at, n),
                #[trigger] unary_fact(level_function(channel, l), Domain::Jack, name),
            ) == Some(PayloadView::Text(boolean_text(b))),
        forall|field: Seq<char>, k: int|
            0 <= k < chain_levels(ns, channel, name, b, is_test, test_at, n).len() && #[trigger] writes_entry(
                chain_levels(ns, channel, name, b, is_test, test_at, n)[k],
                qualified_key(ns, probabilities_key()),
                field,
            ) ==> exists|l: nat|
                l < n && field == proposition_text(
                    #[trigger] unary_fact(level_function(channel, l), Domain::Jack, name),
                ),
    decreases n,
{
    if n > 0 {
        let key = qualified_key(ns, probabilities_key());
        let prev = chain_levels(ns, channel, name, b, is_test, test_at, (n - 1) as nat);
        let last = chain_level(ns, channel, name, b, is_test, test_at, (n - 1) as nat);
        let all = chain_levels(ns, channel, name, b, is_test, test_at, n);
        lemma_chain_levels_beliefs(ns, channel, name, b, is_test, test_at, (n - 1) as nat);
        let top = unary_fact(level_function(channel, (n - 1) as nat), Domain::Jack, name);
        let v = PayloadView::Text(boolean_text(b));
        assert forall|l: nat| l < n implies stored_belief(
            ns,
            all,
            #[trigger] unary_fact(level_function(channel, l), Domain::Jack, name),
        ) == Some(v) by {
            let p = unary_fact(level_function(channel, l), Domain::Jack, name);
            lemma_chain_level_writes(ns, channel, name, b, is_test, test_at, (n - 1) as nat, proposition_text(p));
            if l < n - 1 {
                assert forall|k: int|
                    0 <= k < last.len() && writes_entry(#[trigger] last[k], key, proposition_text(p)) implies last[k]
                        == (CommandView::MapInsert { key, field: proposition_text(p), value: v }) by {}
                lemma_map_read_same(prev, last, key, proposition_text(p), v);
            } else {
                let head = (if n - 1 == 0 {
                    implication_commands(ns, existence_implication(top))
                } else {
                    Seq::empty()
                });
                let tail = training_commands(ns, !is_test, top) + test_commands(ns, is_test && (n - 1) == test_at, top);
                assert(all =~= (prev + head).push(belief_command(ns, top, b)) + tail);
                lemma_map_read_write(prev + head, key, proposition_text(top), v);
                assert forall|k: int| 0 <= k < tail.len() implies !writes_entry(#[trigger] tail[k], key, proposition_text(top)) by {}
                lemma_map_read_skip((prev + head).push(belief_command(ns, top, b)), tail, key, proposition_text(top));
            }
        }
        assert forall|field: Seq<char>, k: int|
            0 <= k < all.len() && #[trigger] writes_entry(all[k], key, field) implies exists|l: nat|
                l < n && field == proposition_text(#[trigger] unary_fact(level_function(channel, l), Domain::Jack, name)) by {
            if k < prev.len() {
                assert(all[k] == prev[k]);
                assert(writes_entry(prev[k], key, field));
            } else {
                assert(all[k] == last[k - prev.len()]);
                lemma_chain_level_writes(ns, channel, name, b, is_test, test_at, (n - 1) as nat, field);
                assert(field == proposition_text(top));
            }
        }
    }
}

/// Facts whose relations differ in their first letter have different
/// texts.
/// Facts whose relation, their first role, differs in letter `x` have
/// different texts.
pub proof fn lemma_relation_letter_differs(f: Seq<char>, g: Seq<char>, a: PropositionView, b: PropositionView, x: int)
    requires
        0 <= x < f.len(),
        x < g.len(),
        f[x] != g[x],
        a.len() > 0,
        b.len() > 0,
        a[0] == relation_role(f),
        b[0] == relation_role(g),
    ensures
        proposition_text(a) != proposition_text(b),
{
    reveal_strlit("relation");
    reveal_strlit("=");
    assert(role_text(a[0]) == "relation"@ + "="@ + f);
    assert(role_text(b[0]) == "relation"@ + "="@ + g);
    assert(role_text(a[0])[9 + x] == f[x]);
    assert(role_text(b[0])[9 + x] == g[x]);
    lemma_texts_differ_at(a, b, 0, 9 + x);
}

/// The facts `f(sub: her, obj: him)` and `f(sub: him, obj: her)` of a
/// couple have different texts.
pub proof fn lemma_couple_directions_differ(f: Seq<char>, is_test: bool, i: nat)
    ensures
        proposition_text(binary_fact(f, Domain::Jill, member_name(is_test, Domain::Jill, i), Domain::Jack, member_name(is_test, Domain::Jack, i)))
            != proposition_text(binary_fact(f, Domain::Jack, member_name(is_test, Domain::Jack, i), Domain::Jill, member_name(is_test, Domain::Jill, i))),
{
    let a = binary_fact(f, Domain::Jill, member_name(is_test, Domain::Jill, i), Domain::Jack, member_name(is_test, Domain::Jack, i));
    let b = binary_fact(f, Domain::Jack, member_name(is_test, Domain::Jack, i), Domain::Jill, member_name(is_test, Domain::Jill, i));
    reveal_strlit("sub");
    reveal_strlit("=");
    reveal_strlit("_");
    reveal_strlit("Jack");
    reveal_strlit("Jill");
    reveal_strlit("test");
    reveal_strlit("train");
    let x: int = (4 + prefix_text(is_test).len() + 2) as int;
    assert(role_text(a[1]) == "sub"@ + "="@ + (prefix_text(is_test) + "_"@ + "Jill"@ + decimal_text(i)));
    assert(role_text(b[1]) == "sub"@ + "="@ + (prefix_text(is_test) + "_"@ + "Jack"@ + decimal_text(i)));
    assert(role_text(a[1])[x] == 'i');
    assert(role_text(b[1])[x] == 'a');
    assert(a[0] == b[0]);
    lemma_texts_differ_at(a, b, 1, x);
}

pub proof fn lemma_first_letters_differ(f: Seq<char>, g: Seq<char>, a: PropositionView, b: PropositionView)
    requires
        f.len() > 0,
        g.len() > 0,
        f[0] != g[0],
        a.len() > 0,
        b.len() > 0,
        a[0] == relation_role(f),
        b[0] == relation_role(g),
    ensures
        proposition_text(a) != proposition_text(b),
{
    reveal_strlit("relation");
    reveal_strlit("=");
    assert(role_text(a[0]) == "relation"@ + "="@ + f);
    assert(role_text(b[0]) == "relation"@ + "="@ + g);
    assert(role_text(a[0])[9] == f[0]);
    assert(role_text(b[0])[9] == g[0]);
    lemma_texts_differ_at(a, b, 0, 9);
}

/// An observed fact writes no observation but its own.
pub proof fn lemma_observed_fact_writes(ns: Seq<char>, p: PropositionView, b: bool, is_training: bool, field: Seq<char>)
    requires
        field != proposition_text(p),
    ensures
        forall|k: int|
            0 <= k < observed_fact(ns, p, b, is_training).len() ==> !writes_entry(
                #[trigger] observed_fact(ns, p, b, is_training)[k],
                qualified_key(ns, probabilities_key()),
                field,
            ),
{
}

/// An observed fact's own observation is the draw, whatever follows it in
/// the fact's commands.
pub proof fn lemma_observed_fact_reads(a: Seq<CommandView>, ns: Seq<char>, p: PropositionView, b: bool, is_training: bool)
    ensures
        stored_belief(ns, a + observed_fact(ns, p, b, is_training), p) == Some(PayloadView::Text(boolean_text(b))),
{
    let key = qualified_key(ns, probabilities_key());
    let o = observed_fact(ns, p, b, is_training);
    let rest = o.drop_first();
    assert(a + o =~= a.push(belief_command(ns, p, b)) + rest);
    lemma_map_read_write(a, key, proposition_text(p), PayloadView::Text(boolean_text(b)));
    assert forall|k: int| 0 <= k < rest.len() implies !writes_entry(#[trigger] rest[k], key, proposition_text(p)) by {
        assert(rest[k] == o[k + 1]);
    }
    lemma_map_read_skip(a.push(belief_command(ns, p, b)), rest, key, proposition_text(p));
}

/// A conditional observation writes no observation but its own.
pub proof fn lemma_belief_if_writes(ns: Seq<char>, cond: bool, p: PropositionView, b: bool, field: Seq<char>)
    requires
        field != proposition_text(p),
    ensures
        forall|k: int|
            0 <= k < belief_if(ns, cond, p, b).len() ==> !writes_entry(
                #[trigger] belief_if(ns, cond, p, b)[k],
                qualified_key(ns, probabilities_key()),
                field,
            ),
{
}

/// Queue entries write no observation.
pub proof fn lemma_queue_writes(ns: Seq<char>, t: bool, p: PropositionView, field: Seq<char>)
    ensures
        forall|k: int|
            0 <= k < training_commands(ns, t, p).len() ==> !writes_entry(
                #[trigger] training_commands(ns, t, p)[k],
                qualified_key(ns, probabilities_key()),
                field,
            ),
        forall|k: int|
            0 <= k < test_commands(ns, t, p).len() ==> !writes_entry(
                #[trigger] test_commands(ns, t, p)[k],
                qualified_key(ns, probabilities_key()),
                field,
            ),
{
}

/// What a queue entry adds to each list: the proposition to its own queue
/// when it is made, nothing otherwise.
pub proof fn lemma_queue_entry_lists(ns: Seq<char>, t: bool, p: PropositionView, key: Seq<char>)
    ensures
        list_read(training_commands(ns, t, p), key) == (if t && key == qualified_key(ns, training_queue()) {
            seq![PayloadView::Proposition(p)]
        } else {
            Seq::empty()
        }),
        list_read(test_commands(ns, t, p), key) == (if t && key == qualified_key(ns, test_queue()) {
            seq![PayloadView::Proposition(p)]
        } else {
            Seq::empty()
        }),
        forall|k: int| 0 <= k < training_commands(ns, t, p).len() ==> !clears_list(#[trigger] training_commands(ns, t, p)[k], key),
        forall|k: int| 0 <= k < test_commands(ns, t, p).len() ==> !clears_list(#[trigger] test_commands(ns, t, p)[k], key),
{
    let e: Seq<CommandView> = Seq::empty();
    assert(list_read(e, key) == Seq::<PayloadView>::empty());
    if t {
        assert(training_commands(ns, t, p).drop_last() =~= e);
        assert(test_commands(ns, t, p).drop_last() =~= e);
        assert(training_commands(ns, t, p).last() == crate::train::queue_push(ns, training_queue(), p));
        assert(test_commands(ns, t, p).last() == crate::train::queue_push(ns, test_queue(), p));
        assert(Seq::<PayloadView>::empty().push(PayloadView::Proposition(p)) =~= seq![PayloadView::Proposition(p)]);
    } else {
        assert(training_commands(ns, t, p) =~= e);
        assert(test_commands(ns, t, p) =~= e);
    }
}

/// What an observed fact adds to each list: the fact to the training queue
/// when it is for training, nothing otherwise.
pub proof fn lemma_observed_fact_lists(ns: Seq<char>, p: PropositionView, b: bool, tr: bool, key: Seq<char>)
    ensures
        list_read(observed_fact(ns, p, b, tr), key) == (if tr && key == qualified_key(ns, training_queue()) {
            seq![PayloadView::Proposition(p)]
        } else {
            Seq::empty()
        }),
        forall|k: int| 0 <= k < observed_fact(ns, p, b, tr).len() ==> !clears_list(#[trigger] observed_fact(ns, p, b, tr)[k], key),
{
    let head = seq![belief_command(ns, p, b)];
    let q = training_commands(ns, tr, p);
    let imp = implication_commands(ns, existence_implication(p));
    lemma_list_read_none(head, key);
    lemma_list_read_none(imp, key);
    lemma_queue_entry_lists(ns, tr, p, key);
    lemma_list_read_concat(head, q, key);
    lemma_list_read_concat(head + q, imp, key);
    assert(Seq::<PayloadView>::empty() + list_read(q, key) =~= list_read(q, key));
    assert(list_read(q, key) + Seq::<PayloadView>::empty() =~= list_read(q, key));
}

/// What a conditional observation or a domain's entity adds to a list:
/// nothing.
pub proof fn lemma_plain_lists(ns: Seq<char>, cond: bool, p: PropositionView, b: bool, d: Domain, name: Seq<char>, key: Seq<char>)
    ensures
        list_read(belief_if(ns, cond, p, b), key) == Seq::<PayloadView>::empty(),
        list_read(crate::graph::entity_commands(ns, d, name), key) == Seq::<PayloadView>::empty(),
        forall|k: int| 0 <= k < belief_if(ns, cond, p, b).len() ==> !clears_list(#[trigger] belief_if(ns, cond, p, b)[k], key),
        forall|k: int|
            0 <= k < crate::graph::entity_commands(ns, d, name).len() ==> !clears_list(
                #[trigger] crate::graph::entity_commands(ns, d, name)[k],
                key,
            ),
{
    lemma_list_read_none(belief_if(ns, cond, p, b), key);
    lemma_list_read_none(crate::graph::entity_commands(ns, d, name), key);
}

/// The levels `0` to `n - 1` of a channel for the man `name`, as queue
/// entries.
pub open spec fn chain_entries(channel: Seq<char>, name: Seq<char>, n: nat) -> Seq<PayloadView> {
    Seq::new(n, |l: int| PayloadView::Proposition(unary_fact(level_function(channel, l as nat), Domain::Jack, name)))
}

/// The first `n` levels of a channel put every level, in order, on the
/// training list of a training member, and only the level `test_at` on the
/// test list of a test member.
pub proof fn lemma_chain_levels_lists(
    ns: Seq<char>,
    channel: Seq<char>,
    name: Seq<char>,
    b: bool,
    is_test: bool,
    test_at: int,
    n: nat,
)
    ensures
        list_read(chain_levels(ns, channel, name, b, is_test, test_at, n), qualified_key(ns, training_queue())) == (if is_test {
            Seq::<PayloadView>::empty()
        } else {
            chain_entries(channel, name, n)
        }),
        list_read(chain_levels(ns, channel, name, b, is_test, test_at, n), qualified_key(ns, test_queue())) == (if is_test && 0 <= test_at < n {
            seq![PayloadView::Proposition(unary_fact(level_function(channel, test_at as nat), Domain::Jack, name))]
        } else {
            Seq::<PayloadView>::empty()
        }),
        forall|key: Seq<char>, k: int|
            0 <= k < chain_levels(ns, channel, name, b, is_test, test_at, n).len() ==> !#[trigger] clears_list(
                chain_levels(ns, channel, name, b, is_test, test_at, n)[k],
                key,
            ),
    decreases n,
{
    crate::train::lemma_queues_apart(ns);
    let tr = qualified_key(ns, training_queue());
    let te = qualified_key(ns, test_queue());
    if n == 0 {
        let e: Seq<CommandView> = Seq::empty();
        assert(list_read(e, tr) == Seq::<PayloadView>::empty());
        assert(list_read(e, te) == Seq::<PayloadView>::empty());
        assert(chain_entries(channel, name, 0) =~= Seq::<PayloadView>::empty());
    } else {
        let l = (n - 1) as nat;
        lemma_chain_levels_lists(ns, channel, name, b, is_test, test_at, l);
        let prev = chain_levels(ns, channel, name, b, is_test, test_at, l);
        let p = unary_fact(level_function(channel, l), Domain::Jack, name);
        let head = (if l == 0 {
            implication_commands(ns, existence_implication(p))
        } else {
            Seq::empty()
        }).push(belief_command(ns, p, b));
        let q1 = training_commands(ns, !is_test, p);
        let q2 = test_commands(ns, is_test && l == test_at, p);
        let level = chain_level(ns, channel, name, b, is_test, test_at, l);
        assert(level == head + q1 + q2);
        assert(chain_levels(ns, channel, name, b, is_test, test_at, n) == prev + head + q1 + q2);
        assert forall|key: Seq<char>| true implies {
            &&& list_read(head, key) == Seq::<PayloadView>::empty()
            &&& forall|k: int| 0 <= k < head.len() ==> !clears_list(#[trigger] head[k], key)
        } by {
            lemma_list_read_none(head, key);
        }
        lemma_queue_entry_lists(ns, !is_test, p, tr);
        lemma_queue_entry_lists(ns, is_test && l == test_at, p, tr);
        lemma_queue_entry_lists(ns, !is_test, p, te);
        lemma_queue_entry_lists(ns, is_test && l == test_at, p, te);
        lemma_list_read_concat(prev, head, tr);
        lemma_list_read_concat(prev + head, q1, tr);
        lemma_list_read_concat(prev + head + q1, q2, tr);
        lemma_list_read_concat(prev, head, te);
        lemma_list_read_concat(prev + head, q1, te);
        lemma_list_read_concat(prev + head + q1, q2, te);
        if !is_test {
            assert(chain_entries(channel, name, n) =~= chain_entries(channel, name, l).push(PayloadView::Proposition(p)));
            assert(list_read(prev + head + q1 + q2, tr) =~= chain_entries(channel, name, n));
        } else {
            assert(list_read(prev + head + q1 + q2, tr) =~= Seq::<PayloadView>::empty());
        }
        assert(list_read(prev + head + q1 + q2, te) =~= (if is_test && 0 <= test_at < n {
            seq![PayloadView::Proposition(unary_fact(level_function(channel, test_at as nat), Domain::Jack, name))]
        } else {
            Seq::<PayloadView>::empty()
        }));
        assert forall|key: Seq<char>, k: int|
            0 <= k < chain_levels(ns, channel, name, b, is_test, test_at, n).len() implies !#[trigger] clears_list(
                chain_levels(ns, channel, name, b, is_test, test_at, n)[k],
                key,
            ) by {
            let all = chain_levels(ns, channel, name, b, is_test, test_at, n);
            lemma_queue_entry_lists(ns, !is_test, p, key);
            lemma_queue_entry_lists(ns, is_test && l == test_at, p, key);
            lemma_list_read_none(head, key);
            if k < prev.len() {
                assert(all[k] == prev[k]);
            } else if k < prev.len() + head.len() {
                assert(all[k] == head[k - prev.len()]);
            } else if k < prev.len() + head.len() + q1.len() {
                assert(all[k] == q1[k - prev.len() - head.len()]);
            } else {
                assert(all[k] == q2[k - prev.len() - head.len() - q1.len()]);
            }
        }
    }
}

} // verus!
