//! The commands by which the library reads and writes the key/value store
//! (strings, hashes, sets and lists under namespaced keys). The library
//! decides every key and value; whoever holds the connection runs them.

use vstd::prelude::*;
use crate::objects::{
    Domain, Implication, ImplicationView, Proposition, PropositionView, Relation,
    VariableArgument,
};

verus! {

/// A relation, abstractly: its name and its argument domains.
pub struct RelationView {
    pub name: Seq<char>,
    pub types: Seq<Domain>,
}

impl View for Relation {
    type V = RelationView;

    open spec fn view(&self) -> RelationView {
        RelationView {
            name: self.relation_name@,
            types: self.types@.map_values(|v: VariableArgument| v.domain),
        }
    }
}

/// A stored value: plain text, or an object that is kept as its JSON record.
#[derive(Clone, Debug)]
pub enum Payload {
    Text(String),
    Proposition(Proposition),
    Implication(Implication),
    Relation(Relation),
}

/// A stored value, abstractly.
pub enum PayloadView {
    Text(Seq<char>),
    Proposition(PropositionView),
    Implication(ImplicationView),
    Relation(RelationView),
}

impl View for Payload {
    type V = PayloadView;

    open spec fn view(&self) -> PayloadView {
        match self {
            Payload::Text(t) => PayloadView::Text(t@),
            Payload::Proposition(p) => PayloadView::Proposition(p@),
            Payload::Implication(i) => PayloadView::Implication(i@),
            Payload::Relation(r) => PayloadView::Relation(r@),
        }
    }
}

/// One read or write of the store.
#[derive(Clone, Debug)]
pub enum StoreCommand {
    /// Set the string at `key`.
    SetValue { key: String, value: String },
    /// Read the string at `key`, if any.
    GetValue { key: String },
    /// Set `field` of the hash at `key`.
    MapInsert { key: String, field: String, value: Payload },
    /// Read `field` of the hash at `key`, if any.
    MapGet { key: String, field: String },
    /// Add a member to the set at `key`; the reply says whether it was new.
    SetAdd { key: String, member: Payload },
    /// Read all members of the set at `key`.
    SetMembers { key: String },
    /// Whether the set at `key` has the member.
    IsMember { key: String, member: Payload },
    /// Stop, with the reply passed to the check that asked, unless the set at
    /// `key` has the text `member`.
    RequireMember { key: String, member: String },
    /// Append to the list at `key`; the reply is the new length.
    SeqPush { key: String, value: Payload },
    /// Read the whole list at `key`.
    SeqGetAll { key: String },
    /// Remove and return the elements of the list at `key`, from the front.
    SeqDrain { key: String },
    /// Remove every key of the database.
    FlushDb,
}

/// A command, abstractly.
pub enum CommandView {
    SetValue { key: Seq<char>, value: Seq<char> },
    GetValue { key: Seq<char> },
    MapInsert { key: Seq<char>, field: Seq<char>, value: PayloadView },
    MapGet { key: Seq<char>, field: Seq<char> },
    SetAdd { key: Seq<char>, member: PayloadView },
    SetMembers { key: Seq<char> },
    IsMember { key: Seq<char>, member: PayloadView },
    RequireMember { key: Seq<char>, member: Seq<char> },
    SeqPush { key: Seq<char>, value: PayloadView },
    SeqGetAll { key: Seq<char> },
    SeqDrain { key: Seq<char> },
    FlushDb,
}

impl View for StoreCommand {
    type V = CommandView;

    open spec fn view(&self) -> CommandView {
        match self {
            StoreCommand::SetValue { key, value } => CommandView::SetValue { key: key@, value: value@ },
            StoreCommand::GetValue { key } => CommandView::GetValue { key: key@ },
            StoreCommand::MapInsert { key, field, value } => CommandView::MapInsert {
                key: key@,
                field: field@,
                value: value@,
            },
            StoreCommand::MapGet { key, field } => CommandView::MapGet { key: key@, field: field@ },
            StoreCommand::SetAdd { key, member } => CommandView::SetAdd { key: key@, member: member@ },
            StoreCommand::SetMembers { key } => CommandView::SetMembers { key: key@ },
            StoreCommand::IsMember { key, member } => CommandView::IsMember {
                key: key@,
                member: member@,
            },
            StoreCommand::RequireMember { key, member } => CommandView::RequireMember {
                key: key@,
                member: member@,
            },
            StoreCommand::SeqPush { key, value } => CommandView::SeqPush { key: key@, value: value@ },
            StoreCommand::SeqGetAll { key } => CommandView::SeqGetAll { key: key@ },
            StoreCommand::SeqDrain { key } => CommandView::SeqDrain { key: key@ },
            StoreCommand::FlushDb => CommandView::FlushDb,
        }
    }
}

/// The views of a vector of commands.
pub open spec fn command_views(v: Seq<StoreCommand>) -> Seq<CommandView> {
    v.map_values(|c: StoreCommand| c@)
}

/// Appends `more` to `out`.
pub fn append_commands(out: &mut Vec<StoreCommand>, more: Vec<StoreCommand>)
    ensures
        command_views(final(out)@) == command_views(old(out)@) + command_views(more@),
{
    let mut more = more;
    let ghost a = out@;
    let ghost b = more@;
    out.append(&mut more);
    proof {
        assert(command_views(a + b) =~= command_views(a) + command_views(b));
    }
}

/// Appends one command to `out`.
pub fn push_command(out: &mut Vec<StoreCommand>, c: StoreCommand)
    ensures
        command_views(final(out)@) == command_views(old(out)@).push(c@),
{
    let ghost a = out@;
    out.push(c);
    proof {
        assert(command_views(a.push(c)) =~= command_views(a).push(c@));
    }
}

/// `bayes-star:namespace:key`.
pub open spec fn qualified_key(namespace: Seq<char>, key: Seq<char>) -> Seq<char> {
    "bayes-star:"@ + namespace + ":"@ + key
}

/// The store key of `key` within `namespace`.
pub fn namespace_qualified_key(namespace: &str, key: &str) -> (s: String)
    ensures
        s@ == qualified_key(namespace@, key@),
{
    let mut s = String::from_str("bayes-star:");
    s.append(namespace);
    s.append(":");
    s.append(key);
    s
}

/// Sets the string at `key` of `namespace`.
pub fn set_value(namespace: &str, key: &str, value: &str) -> (c: StoreCommand)
    ensures
        c@ == (CommandView::SetValue { key: qualified_key(namespace@, key@), value: value@ }),
{
    StoreCommand::SetValue {
        key: namespace_qualified_key(namespace, key),
        value: String::from_str(value),
    }
}

/// Reads the string at `key` of `namespace`.
pub fn get_value(namespace: &str, key: &str) -> (c: StoreCommand)
    ensures
        c@ == (CommandView::GetValue { key: qualified_key(namespace@, key@) }),
{
    StoreCommand::GetValue { key: namespace_qualified_key(namespace, key) }
}

/// Sets `field` of the hash at `key` of `namespace`.
pub fn map_insert(namespace: &str, key: &str, field: &str, value: &str) -> (c: StoreCommand)
    ensures
        c@ == (CommandView::MapInsert {
            key: qualified_key(namespace@, key@),
            field: field@,
            value: PayloadView::Text(value@),
        }),
{
    StoreCommand::MapInsert {
        key: namespace_qualified_key(namespace, key),
        field: String::from_str(field),
        value: Payload::Text(String::from_str(value)),
    }
}

/// Reads `field` of the hash at `key` of `namespace`.
pub fn map_get(namespace: &str, key: &str, field: &str) -> (c: StoreCommand)
    ensures
        c@ == (CommandView::MapGet { key: qualified_key(namespace@, key@), field: field@ }),
{
    StoreCommand::MapGet {
        key: namespace_qualified_key(namespace, key),
        field: String::from_str(field),
    }
}

/// Adds the text `member` to the set at `key` of `namespace`.
pub fn set_add(namespace: &str, key: &str, member: &str) -> (c: StoreCommand)
    ensures
        c@ == (CommandView::SetAdd {
            key: qualified_key(namespace@, key@),
            member: PayloadView::Text(member@),
        }),
{
    StoreCommand::SetAdd {
        key: namespace_qualified_key(namespace, key),
        member: Payload::Text(String::from_str(member)),
    }
}

/// Adds `member` to the set at `key` of `namespace`.
pub fn set_add_payload(namespace: &str, key: &str, member: Payload) -> (c: StoreCommand)
    ensures
        c@ == (CommandView::SetAdd { key: qualified_key(namespace@, key@), member: member@ }),
{
    StoreCommand::SetAdd { key: namespace_qualified_key(namespace, key), member }
}

/// Reads the members of the set at `key` of `namespace`.
pub fn set_members(namespace: &str, key: &str) -> (c: StoreCommand)
    ensures
        c@ == (CommandView::SetMembers { key: qualified_key(namespace@, key@) }),
{
    StoreCommand::SetMembers { key: namespace_qualified_key(namespace, key) }
}

/// Whether the set at `key` of `namespace` has the text `member`.
pub fn is_member(namespace: &str, key: &str, member: &str) -> (c: StoreCommand)
    ensures
        c@ == (CommandView::IsMember {
            key: qualified_key(namespace@, key@),
            member: PayloadView::Text(member@),
        }),
{
    StoreCommand::IsMember {
        key: namespace_qualified_key(namespace, key),
        member: Payload::Text(String::from_str(member)),
    }
}

/// Appends the text `value` to the list at `key` of `namespace`.
pub fn seq_push(namespace: &str, key: &str, value: &str) -> (c: StoreCommand)
    ensures
        c@ == (CommandView::SeqPush {
            key: qualified_key(namespace@, key@),
            value: PayloadView::Text(value@),
        }),
{
    StoreCommand::SeqPush {
        key: namespace_qualified_key(namespace, key),
        value: Payload::Text(String::from_str(value)),
    }
}

/// Appends `value` to the list at `key` of `namespace`.
pub fn seq_push_payload(namespace: &str, key: &str, value: Payload) -> (c: StoreCommand)
    ensures
        c@ == (CommandView::SeqPush { key: qualified_key(namespace@, key@), value: value@ }),
{
    StoreCommand::SeqPush { key: namespace_qualified_key(namespace, key), value }
}

/// Reads the list at `key` of `namespace`.
pub fn seq_get_all(namespace: &str, key: &str) -> (c: StoreCommand)
    ensures
        c@ == (CommandView::SeqGetAll { key: qualified_key(namespace@, key@) }),
{
    StoreCommand::SeqGetAll { key: namespace_qualified_key(namespace, key) }
}

/// Within one namespace, distinct keys name distinct store keys.
pub proof fn lemma_qualified_key_injective(namespace: Seq<char>, k1: Seq<char>, k2: Seq<char>)
    ensures
        qualified_key(namespace, k1) == qualified_key(namespace, k2) <==> k1 == k2,
{
    let prefix = "bayes-star:"@ + namespace + ":"@;
    assert(qualified_key(namespace, k1) == prefix + k1);
    assert(qualified_key(namespace, k2) == prefix + k2);
    if prefix + k1 == prefix + k2 {
        assert(k1 =~= (prefix + k1).skip(prefix.len() as int));
        assert(k2 =~= (prefix + k2).skip(prefix.len() as int));
    }
}

/// The text has no `:`.
pub open spec fn colon_free(s: Seq<char>) -> bool {
    forall|i: int| 0 <= i < s.len() ==> s[i] != ':'
}

/// Store keys of namespaces without `:` never collide across namespaces:
/// equal store keys come from the same namespace and the same key.
pub proof fn lemma_namespaces_disjoint(n1: Seq<char>, k1: Seq<char>, n2: Seq<char>, k2: Seq<char>)
    requires
        colon_free(n1),
        colon_free(n2),
        qualified_key(n1, k1) == qualified_key(n2, k2),
    ensures
        n1 == n2,
        k1 == k2,
{
    reveal_strlit(":");
    reveal_strlit("bayes-star:");
    let p = "bayes-star:"@;
    let s1 = qualified_key(n1, k1);
    let s2 = qualified_key(n2, k2);
    let r1 = s1.skip(p.len() as int);
    let r2 = s2.skip(p.len() as int);
    assert(r1 =~= n1 + ":"@ + k1);
    assert(r2 =~= n2 + ":"@ + k2);
    assert(r1 == r2);
    if n1.len() < n2.len() {
        assert(r1[n1.len() as int] == ':');
        assert(r2[n1.len() as int] == n2[n1.len() as int]);
    } else if n2.len() < n1.len() {
        assert(r2[n2.len() as int] == ':');
        assert(r1[n2.len() as int] == n1[n2.len() as int]);
    } else {
        assert(n1 =~= r1.take(n1.len() as int));
        assert(n2 =~= r2.take(n2.len() as int));
        assert(k1 =~= r1.skip(n1.len() as int + 1));
        assert(k2 =~= r2.skip(n2.len() as int + 1));
    }
}

/// What the hash `key` holds under `field` once the commands have run in
/// order: the value of the last insert there since the last flush, if any.
pub open spec fn map_read(cmds: Seq<CommandView>, key: Seq<char>, field: Seq<char>) -> Option<PayloadView>
    decreases cmds.len(),
{
    if cmds.len() == 0 {
        None
    } else {
        match cmds.last() {
            CommandView::MapInsert { key: k, field: f, value } => if k == key && f == field {
                Some(value)
            } else {
                map_read(cmds.drop_last(), key, field)
            },
            CommandView::FlushDb => None,
            _ => map_read(cmds.drop_last(), key, field),
        }
    }
}

/// Whether the command can change what the hash `key` holds under `field`.
pub open spec fn writes_entry(c: CommandView, key: Seq<char>, field: Seq<char>) -> bool {
    match c {
        CommandView::MapInsert { key: k, field: f, value: _ } => k == key && f == field,
        CommandView::FlushDb => true,
        _ => false,
    }
}

/// Commands that leave an entry alone do not change what a read of it
/// gives.
pub proof fn lemma_map_read_skip(a: Seq<CommandView>, b: Seq<CommandView>, key: Seq<char>, field: Seq<char>)
    requires
        forall|k: int| 0 <= k < b.len() ==> !writes_entry(#[trigger] b[k], key, field),
    ensures
        map_read(a + b, key, field) == map_read(a, key, field),
    decreases b.len(),
{
    if b.len() > 0 {
        assert forall|k: int| 0 <= k < b.drop_last().len() implies !writes_entry(#[trigger] b.drop_last()[k], key, field) by {
            assert(b.drop_last()[k] == b[k]);
        }
        lemma_map_read_skip(a, b.drop_last(), key, field);
        assert((a + b).drop_last() =~= a + b.drop_last());
        assert((a + b).last() == b[b.len() - 1]);
    }
}

/// A read of an entry gives back what the last command wrote there.
pub proof fn lemma_map_read_write(a: Seq<CommandView>, key: Seq<char>, field: Seq<char>, value: PayloadView)
    ensures
        map_read(a.push(CommandView::MapInsert { key, field, value }), key, field) == Some(value),
{
    assert(a.push(CommandView::MapInsert { key, field, value }).last() == CommandView::MapInsert { key, field, value });
}

/// Commands that write an entry only with `value`, and never flush, keep a
/// read of it that gave `value` giving it.
pub proof fn lemma_map_read_same(
    a: Seq<CommandView>,
    b: Seq<CommandView>,
    key: Seq<char>,
    field: Seq<char>,
    value: PayloadView,
)
    requires
        map_read(a, key, field) == Some(value),
        forall|k: int|
            0 <= k < b.len() && writes_entry(#[trigger] b[k], key, field) ==> b[k] == (CommandView::MapInsert {
                key,
                field,
                value,
            }),
    ensures
        map_read(a + b, key, field) == Some(value),
    decreases b.len(),
{
    if b.len() > 0 {
        assert forall|k: int|
            0 <= k < b.drop_last().len() && writes_entry(#[trigger] b.drop_last()[k], key, field) implies b.drop_last()[k]
                == (CommandView::MapInsert { key, field, value }) by {
            assert(b.drop_last()[k] == b[k]);
        }
        lemma_map_read_same(a, b.drop_last(), key, field, value);
        assert((a + b).drop_last() =~= a + b.drop_last());
        assert((a + b).last() == b[b.len() - 1]);
    }
}

/// Once later commands have written an entry, what came before them does
/// not change a read of it.
pub proof fn lemma_map_read_suffix(a: Seq<CommandView>, b: Seq<CommandView>, key: Seq<char>, field: Seq<char>)
    requires
        map_read(b, key, field) is Some,
    ensures
        map_read(a + b, key, field) == map_read(b, key, field),
    decreases b.len(),
{
    if b.len() > 0 {
        assert((a + b).drop_last() =~= a + b.drop_last());
        assert((a + b).last() == b.last());
        match b.last() {
            CommandView::MapInsert { key: k, field: f, value: _ } => {
                if !(k == key && f == field) {
                    lemma_map_read_suffix(a, b.drop_last(), key, field);
                }
            },
            CommandView::FlushDb => {},
            _ => {
                lemma_map_read_suffix(a, b.drop_last(), key, field);
            },
        }
    }
}

/// What the set `key` holds once the commands have run in order: every
/// member added to it since the last flush.
pub open spec fn set_read(cmds: Seq<CommandView>, key: Seq<char>) -> Set<PayloadView>
    decreases cmds.len(),
{
    if cmds.len() == 0 {
        Set::empty()
    } else {
        match cmds.last() {
            CommandView::SetAdd { key: k, member } => if k == key {
                set_read(cmds.drop_last(), key).insert(member)
            } else {
                set_read(cmds.drop_last(), key)
            },
            CommandView::FlushDb => Set::empty(),
            _ => set_read(cmds.drop_last(), key),
        }
    }
}

/// What the list `key` holds once the commands have run in order: what
/// was pushed onto it, in order, since it was last drained or flushed.
pub open spec fn list_read(cmds: Seq<CommandView>, key: Seq<char>) -> Seq<PayloadView>
    decreases cmds.len(),
{
    if cmds.len() == 0 {
        Seq::empty()
    } else {
        match cmds.last() {
            CommandView::SeqPush { key: k, value } => if k == key {
                list_read(cmds.drop_last(), key).push(value)
            } else {
                list_read(cmds.drop_last(), key)
            },
            CommandView::SeqDrain { key: k } => if k == key {
                Seq::empty()
            } else {
                list_read(cmds.drop_last(), key)
            },
            CommandView::FlushDb => Seq::empty(),
            _ => list_read(cmds.drop_last(), key),
        }
    }
}

/// Commands that add nothing to a set, drain and flush nothing, keep what a
/// read of it gives; commands that add only keep what it held.
pub proof fn lemma_set_read_grows(a: Seq<CommandView>, b: Seq<CommandView>, key: Seq<char>)
    requires
        forall|k: int| 0 <= k < b.len() ==> !(#[trigger] b[k] is FlushDb),
    ensures
        set_read(a, key).subset_of(set_read(a + b, key)),
    decreases b.len(),
{
    if b.len() > 0 {
        assert forall|k: int| 0 <= k < b.drop_last().len() implies !(#[trigger] b.drop_last()[k] is FlushDb) by {
            assert(b.drop_last()[k] == b[k]);
        }
        lemma_set_read_grows(a, b.drop_last(), key);
        assert((a + b).drop_last() =~= a + b.drop_last());
        assert((a + b).last() == b[b.len() - 1]);
    }
}

/// Whether the command can empty the list `key`.
pub open spec fn clears_list(c: CommandView, key: Seq<char>) -> bool {
    match c {
        CommandView::SeqDrain { key: k } => k == key,
        CommandView::FlushDb => true,
        _ => false,
    }
}

/// Commands that do not empty a list add to what it held what they push.
pub proof fn lemma_list_read_concat(a: Seq<CommandView>, b: Seq<CommandView>, key: Seq<char>)
    requires
        forall|k: int| 0 <= k < b.len() ==> !clears_list(#[trigger] b[k], key),
    ensures
        list_read(a + b, key) == list_read(a, key) + list_read(b, key),
    decreases b.len(),
{
    if b.len() == 0 {
        assert(a + b =~= a);
        assert(list_read(a, key) + list_read(b, key) =~= list_read(a, key));
    } else {
        assert forall|k: int| 0 <= k < b.drop_last().len() implies !clears_list(#[trigger] b.drop_last()[k], key) by {
            assert(b.drop_last()[k] == b[k]);
        }
        lemma_list_read_concat(a, b.drop_last(), key);
        assert((a + b).drop_last() =~= a + b.drop_last());
        assert((a + b).last() == b[b.len() - 1]);
        assert(!clears_list(b[b.len() - 1], key));
        match b.last() {
            CommandView::SeqPush { key: k, value } => {
                if k == key {
                    assert(list_read(a, key) + list_read(b.drop_last(), key).push(value) =~= (list_read(a, key)
                        + list_read(b.drop_last(), key)).push(value));
                }
            },
            _ => {},
        }
    }
}

/// Commands that push onto no list and empty none leave every list empty
/// when run alone.
pub proof fn lemma_list_read_none(b: Seq<CommandView>, key: Seq<char>)
    requires
        forall|k: int| 0 <= k < b.len() ==> !(#[trigger] b[k] is SeqPush) && !clears_list(b[k], key),
    ensures
        list_read(b, key) == Seq::<PayloadView>::empty(),
    decreases b.len(),
{
    if b.len() > 0 {
        assert forall|k: int| 0 <= k < b.drop_last().len() implies !(#[trigger] b.drop_last()[k] is SeqPush) && !clears_list(
            b.drop_last()[k],
            key,
        ) by {
            assert(b.drop_last()[k] == b[k]);
        }
        lemma_list_read_none(b.drop_last(), key);
        assert(b.last() == b[b.len() - 1]);
    }
}

} // verus!
