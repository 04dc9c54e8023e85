//! HTML pictures of the model's objects for the explorer: domains,
//! arguments, relations, patterns, conjunctions and implications.

use vstd::prelude::*;
use crate::objects::{
    domain_text, ArgumentView, Conjunction, FirstOrderArgument, Implication, Proposition,
    PropositionView, Relation, RoleView,
};
use crate::store::RelationView;
use crate::text::{join_spec, join_strings, text_eq, views_of};

verus! {

/// The picture of a domain: its name and its icon.
pub open spec fn domain_html(domain: Seq<char>) -> Seq<char> {
    "\n                <span class='domain_span'>\n                    <span class='domain_label'>"@
        + domain + "</span>\n                    <span><img src='/static/images/domains/"@ + domain
        + ".png' class='domain_icon' /></span>\n                </span>\n    "@
}

/// The picture of an argument: a constant's domain and id, or a variable's
/// domain.
pub open spec fn argument_html(a: ArgumentView) -> Seq<char> {
    match a {
        ArgumentView::Constant(d, id) => "<div>Constant Argument: <br>Domain: "@ + domain_text(d)
            + "<br>Entity ID: "@ + id + "</div>"@,
        ArgumentView::Variable(d) => domain_html(domain_text(d)),
    }
}

/// A name in the box of a relation, followed by what goes under it.
pub open spec fn relation_box_html(name: Seq<char>, parts: Seq<char>) -> Seq<char> {
    "\n        <span class='relation'>\n            <span class='relation_name'>\n                "@
        + name + "\n            </span>\n            "@ + parts + "\n        </span>\n    "@
}

/// The picture of one argument domain of a relation.
pub open spec fn argument_part_html(d: crate::objects::Domain) -> Seq<char> {
    "<span class='argument_part'>"@ + domain_text(d) + "</span>"@
}

/// The picture of a relation: its name over its argument domains.
pub open spec fn relation_html(r: RelationView) -> Seq<char> {
    relation_box_html(
        r.name,
        join_spec(r.types.map_values(|d: crate::objects::Domain| argument_part_html(d)), ""@),
    )
}

/// The role that names the relation.
pub open spec fn is_relation_name_role(r: RoleView) -> bool {
    r.name == "relation"@
}

/// What a role adds to the name of the relation: the id of the constant that
/// fills the `relation` role, nothing for any other role.
pub open spec fn relation_name_part(r: RoleView) -> Seq<char> {
    if is_relation_name_role(r) {
        match r.arg {
            ArgumentView::Constant(_, id) => id,
            ArgumentView::Variable(_) => Seq::empty(),
        }
    } else {
        Seq::empty()
    }
}

/// What a role adds to the arguments of a pattern: its name and argument,
/// nothing for the `relation` role.
pub open spec fn role_html(r: RoleView) -> Seq<char> {
    if is_relation_name_role(r) {
        Seq::empty()
    } else {
        "<span class='role_name'>"@ + r.name + "</span>"@ + argument_html(r.arg)
    }
}

/// The picture of a pattern: its relation's name over its roles.
pub open spec fn predicate_html(p: PropositionView) -> Seq<char> {
    relation_box_html(
        join_spec(p.map_values(|r: RoleView| relation_name_part(r)), ""@),
        join_spec(p.map_values(|r: RoleView| role_html(r)), ""@),
    )
}

/// The picture of a conjunction: its terms joined by `and` signs.
pub open spec fn group_html(terms: Seq<PropositionView>) -> Seq<char> {
    "<div class='predicate_group'>"@ + join_spec(
        terms.map_values(|p: PropositionView| predicate_html(p)),
        "<span class='and_separator'>&and;</span>"@,
    ) + "</div>"@
}

/// The picture of an implication: its premise over its conclusion.
pub open spec fn implication_html(premise: Seq<PropositionView>, conclusion: PropositionView) -> Seq<char> {
    "\n        <div class='implication_box'>\n            <div class='implication_row'>\n                "@
        + group_html(premise)
        + "\n            </div>\n            <div class='implication_divider'>\n                &or;\n            </div>\n            <div class='implication_row'>\n                "@
        + predicate_html(conclusion) + "\n            </div>\n        </div>\n    "@
}

/// An implication's picture opens its box with the picture of the premise
/// group and ends with the `&or;` divider, the picture of the conclusion
/// and the box's end: the premise is drawn over the conclusion.
pub proof fn lemma_implication_picture_order(premise: Seq<PropositionView>, conclusion: PropositionView)
    ensures
        implication_html(premise, conclusion).take(("\n        <div class=\'implication_box\'>\n            <div class=\'implication_row\'>\n                "@ + group_html(premise)).len() as int)
            == "\n        <div class=\'implication_box\'>\n            <div class=\'implication_row\'>\n                "@ + group_html(premise),
        implication_html(premise, conclusion).skip(
            implication_html(premise, conclusion).len() - ("\n            </div>\n            <div class=\'implication_divider\'>\n                &or;\n            </div>\n            <div class=\'implication_row\'>\n                "@ + predicate_html(conclusion) + "\n            </div>\n        </div>\n    "@).len(),
        ) == "\n            </div>\n            <div class=\'implication_divider\'>\n                &or;\n            </div>\n            <div class=\'implication_row\'>\n                "@ + predicate_html(conclusion) + "\n            </div>\n        </div>\n    "@,
{
    let a = "\n        <div class=\'implication_box\'>\n            <div class=\'implication_row\'>\n                "@ + group_html(premise);
    let b = "\n            </div>\n            <div class=\'implication_divider\'>\n                &or;\n            </div>\n            <div class=\'implication_row\'>\n                "@ + predicate_html(conclusion) + "\n            </div>\n        </div>\n    "@;
    assert(implication_html(premise, conclusion) =~= a + b);
    assert((a + b).take(a.len() as int) =~= a);
    assert((a + b).skip((a + b).len() - b.len()) =~= b);
}

/// The picture of a domain.
pub fn diagram_domain(domain: &str) -> (s: String)
    ensures
        s@ == domain_html(domain@),
{
    let mut s = String::from_str(
        "\n                <span class='domain_span'>\n                    <span class='domain_label'>",
    );
    s.append(domain);
    s.append("</span>\n                    <span><img src='/static/images/domains/");
    s.append(domain);
    s.append(".png' class='domain_icon' /></span>\n                </span>\n    ");
    s
}

/// The picture of an argument.
pub fn diagram_argument(arg: &FirstOrderArgument) -> (s: String)
    ensures
        s@ == argument_html(arg@),
{
    match arg {
        FirstOrderArgument::Constant(c) => {
            let mut s = String::from_str("<div>Constant Argument: <br>Domain: ");
            let d = c.domain.to_string();
            s.append(d.as_str());
            s.append("<br>Entity ID: ");
            s.append(c.entity_id.as_str());
            s.append("</div>");
            s
        },
        FirstOrderArgument::Variable(v) => {
            let d = v.domain.to_string();
            diagram_domain(d.as_str())
        },
    }
}

fn relation_box(name: &str, parts: &str) -> (s: String)
    ensures
        s@ == relation_box_html(name@, parts@),
{
    let mut s = String::from_str(
        "\n        <span class='relation'>\n            <span class='relation_name'>\n                ",
    );
    s.append(name);
    s.append("\n            </span>\n            ");
    s.append(parts);
    s.append("\n        </span>\n    ");
    s
}

/// The picture of a relation.
pub fn diagram_relation(relation: &Relation) -> (s: String)
    ensures
        s@ == relation_html(relation@),
{
    let mut parts: Vec<String> = Vec::new();
    let mut i: usize = 0;
    while i < relation.types.len()
        invariant
            0 <= i <= relation.types.len(),
            parts@.len() == i,
            forall|k: int|
                0 <= k < i ==> (#[trigger] parts@[k])@ == argument_part_html(relation.types@[k].domain),
        decreases relation.types.len() - i,
    {
        let mut part = String::from_str("<span class='argument_part'>");
        let d = relation.types[i].domain.to_string();
        part.append(d.as_str());
        part.append("</span>");
        parts.push(part);
        i += 1;
    }
    proof {
        assert(views_of(parts@) =~= relation@.types.map_values(
            |d: crate::objects::Domain| argument_part_html(d),
        ));
    }
    let joined = join_strings(&parts, "");
    relation_box(relation.relation_name.as_str(), joined.as_str())
}

/// The picture of a pattern.
pub fn diagram_predicate(predicate: &Proposition) -> (s: String)
    ensures
        s@ == predicate_html(predicate@),
{
    let mut names: Vec<String> = Vec::new();
    let mut roles: Vec<String> = Vec::new();
    let mut i: usize = 0;
    while i < predicate.roles.len()
        invariant
            0 <= i <= predicate.roles.len(),
            names@.len() == i,
            roles@.len() == i,
            forall|k: int| 0 <= k < i ==> (#[trigger] names@[k])@ == relation_name_part(predicate@[k]),
            forall|k: int| 0 <= k < i ==> (#[trigger] roles@[k])@ == role_html(predicate@[k]),
        decreases predicate.roles.len() - i,
    {
        let role = &predicate.roles[i];
        if text_eq(role.role_name.as_str(), "relation") {
            match &role.argument {
                FirstOrderArgument::Constant(c) => names.push(c.entity_id.clone()),
                FirstOrderArgument::Variable(_) => names.push(String::new()),
            }
            roles.push(String::new());
        } else {
            names.push(String::new());
            let mut part = String::from_str("<span class='role_name'>");
            part.append(role.role_name.as_str());
            part.append("</span>");
            let a = diagram_argument(&role.argument);
            part.append(a.as_str());
            roles.push(part);
        }
        i += 1;
    }
    proof {
        assert(views_of(names@) =~= predicate@.map_values(|r: RoleView| relation_name_part(r)));
        assert(views_of(roles@) =~= predicate@.map_values(|r: RoleView| role_html(r)));
    }
    let name = join_strings(&names, "");
    let parts = join_strings(&roles, "");
    relation_box(name.as_str(), parts.as_str())
}

/// The picture of a conjunction of patterns.
pub fn diagram_predicate_group(group: &Conjunction) -> (s: String)
    ensures
        s@ == group_html(group@),
{
    let mut parts: Vec<String> = Vec::new();
    let mut i: usize = 0;
    while i < group.terms.len()
        invariant
            0 <= i <= group.terms.len(),
            parts@.len() == i,
            forall|k: int| 0 <= k < i ==> (#[trigger] parts@[k])@ == predicate_html(group@[k]),
        decreases group.terms.len() - i,
    {
        parts.push(diagram_predicate(&group.terms[i]));
        i += 1;
    }
    proof {
        assert(views_of(parts@) =~= group@.map_values(|p: PropositionView| predicate_html(p)));
    }
    let joined = join_strings(&parts, "<span class='and_separator'>&and;</span>");
    let mut s = String::from_str("<div class='predicate_group'>");
    s.append(joined.as_str());
    s.append("</div>");
    s
}

/// The picture of an implication.
pub fn diagram_implication(relation: &Implication) -> (s: String)
    ensures
        s@ == implication_html(relation@.premise, relation@.conclusion),
        s@.take(("\n        <div class=\'implication_box\'>\n            <div class=\'implication_row\'>\n                "@ + group_html(relation@.premise)).len() as int) == "\n        <div class=\'implication_box\'>\n            <div class=\'implication_row\'>\n                "@ + group_html(
            relation@.premise,
        ),
        s@.skip(s@.len() - ("\n            </div>\n            <div class=\'implication_divider\'>\n                &or;\n            </div>\n            <div class=\'implication_row\'>\n                "@ + predicate_html(relation@.conclusion) + "\n            </div>\n        </div>\n    "@).len())
            == "\n            </div>\n            <div class=\'implication_divider\'>\n                &or;\n            </div>\n            <div class=\'implication_row\'>\n                "@ + predicate_html(relation@.conclusion) + "\n            </div>\n        </div>\n    "@,
{
    proof {
        lemma_implication_picture_order(relation@.premise, relation@.conclusion);
    }
    let premise = diagram_predicate_group(&relation.premise);
    let conclusion = diagram_predicate(&relation.conclusion);
    let mut s = String::from_str(
        "\n        <div class='implication_box'>\n            <div class='implication_row'>\n                ",
    );
    s.append(premise.as_str());
    s.append(
        "\n            </div>\n            <div class='implication_divider'>\n                &or;\n            </div>\n            <div class='implication_row'>\n                ",
    );
    s.append(conclusion.as_str());
    s.append("\n            </div>\n        </div>\n    ");
    s
}

/// The picture of a conjunction of propositions: the pattern of each term.
pub fn diagram_proposition_group(group: &Conjunction) -> (s: String)
    ensures
        s@ == group_html(group@),
{
    diagram_predicate_group(group)
}

/// The picture of a proposition built from the relation `f` and roles other
/// than the relation names `f` in its box and lists the pictures of those
/// roles under it, in order.
pub proof fn lemma_predicate_picture(f: Seq<char>, roles: Seq<RoleView>)
    requires
        forall|k: int| 0 <= k < roles.len() ==> (#[trigger] roles[k]).name != "relation"@,
    ensures
        predicate_html(crate::creators::proposition_spec(f, roles)) == relation_box_html(
            f,
            join_spec(roles.map_values(|r: RoleView| role_html(r)), ""@),
        ),
{
    let p = crate::creators::proposition_spec(f, roles);
    let names = p.map_values(|r: RoleView| relation_name_part(r));
    let parts = p.map_values(|r: RoleView| role_html(r));
    let rest_names = roles.map_values(|r: RoleView| relation_name_part(r));
    let rest_parts = roles.map_values(|r: RoleView| role_html(r));
    reveal_strlit("");
    assert(""@ =~= Seq::<char>::empty());
    assert(names =~= seq![f] + rest_names);
    assert(parts =~= seq![Seq::<char>::empty()] + rest_parts);
    assert forall|k: int| 0 <= k < rest_names.len() implies (#[trigger] rest_names[k]).len() == 0 by {
        assert(!is_relation_name_role(roles[k]));
    }
    crate::text::lemma_join_empty_parts(rest_names);
    crate::text::lemma_join_empty_sep_first(f, rest_names);
    crate::text::lemma_join_empty_sep_first(Seq::empty(), rest_parts);
    assert(f + Seq::<char>::empty() =~= f);
    assert(Seq::<char>::empty() + join_spec(rest_parts, Seq::empty()) =~= join_spec(rest_parts, Seq::empty()));
}

} // verus!
