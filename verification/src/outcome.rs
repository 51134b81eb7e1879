//! What a response means for the lookup it answers.
//!
//! A response is read in a fixed order: an answer for the name and type
//! asked, else an alias of the name asked, else a referral to another name
//! server, else nothing.

use crate::message::{records_view, Message, MessageModel};
use crate::name::DomainName;
use crate::question::{TYPE_A, TYPE_CNAME, TYPE_NS};
use crate::record::{DataModel, Ipv4Address, RecordData, RecordModel, ResourceRecord};
use vstd::prelude::*;

verus! {

/// What a response tells about the lookup of a name and a type.
#[derive(Clone, Debug, PartialEq, Eq)]
pub enum Outcome {
    /// The data of the first answer record for the name and type asked.
    Answer(RecordData),
    /// The name asked is an alias of this name.
    Alias(DomainName),
    /// Ask the name server at this address next.
    Referral(Ipv4Address),
    /// Ask the name server of this name next; its address was not given.
    Glueless(DomainName),
    /// Neither an answer nor a referral.
    NoAnswer,
}

/// An outcome as a value of the model.
pub enum OutcomeModel {
    Answer(DataModel),
    Alias(Seq<Seq<u8>>),
    Referral(Ipv4Address),
    Glueless(Seq<Seq<u8>>),
    NoAnswer,
}

impl View for Outcome {
    type V = OutcomeModel;

    open spec fn view(&self) -> OutcomeModel {
        match self {
            Outcome::Answer(d) => OutcomeModel::Answer(d@),
            Outcome::Alias(n) => OutcomeModel::Alias(n@),
            Outcome::Referral(a) => OutcomeModel::Referral(*a),
            Outcome::Glueless(n) => OutcomeModel::Glueless(n@),
            Outcome::NoAnswer => OutcomeModel::NoAnswer,
        }
    }
}

/// The record answers the question for `domain` and `record_type`.
pub open spec fn answers_question(r: RecordModel, domain: Seq<Seq<u8>>, record_type: u16) -> bool {
    r.name == domain && r.type_ == record_type
}

/// The record says that `domain` is an alias of another name.
pub open spec fn is_alias_of(r: RecordModel, domain: Seq<Seq<u8>>) -> bool {
    r.name == domain && r.type_ == TYPE_CNAME && r.data is Name
}

/// The record names a name server.
pub open spec fn names_server(r: RecordModel) -> bool {
    r.type_ == TYPE_NS && r.data is Name
}

/// The record gives the address of the host `server`.
pub open spec fn is_glue_for(r: RecordModel, server: Seq<Seq<u8>>) -> bool {
    r.name == server && r.type_ == TYPE_A && r.data is Address
}

/// The index of the first record from `from` on that answers the question.
pub open spec fn find_answer(
    records: Seq<RecordModel>,
    domain: Seq<Seq<u8>>,
    record_type: u16,
    from: int,
) -> Option<int>
    decreases records.len() - from,
{
    if from < 0 || from >= records.len() {
        None
    } else if answers_question(records[from], domain, record_type) {
        Some(from)
    } else {
        find_answer(records, domain, record_type, from + 1)
    }
}

/// The index of the first record from `from` on that makes `domain` an alias.
pub open spec fn find_alias(records: Seq<RecordModel>, domain: Seq<Seq<u8>>, from: int) -> Option<
    int,
>
    decreases records.len() - from,
{
    if from < 0 || from >= records.len() {
        None
    } else if is_alias_of(records[from], domain) {
        Some(from)
    } else {
        find_alias(records, domain, from + 1)
    }
}

/// The index of the first record from `from` on that names a name server.
pub open spec fn find_server(records: Seq<RecordModel>, from: int) -> Option<int>
    decreases records.len() - from,
{
    if from < 0 || from >= records.len() {
        None
    } else if names_server(records[from]) {
        Some(from)
    } else {
        find_server(records, from + 1)
    }
}

/// The index of the first record from `from` on that gives the address of
/// `server`.
pub open spec fn find_glue(records: Seq<RecordModel>, server: Seq<Seq<u8>>, from: int) -> Option<
    int,
>
    decreases records.len() - from,
{
    if from < 0 || from >= records.len() {
        None
    } else if is_glue_for(records[from], server) {
        Some(from)
    } else {
        find_glue(records, server, from + 1)
    }
}

/// The address of the first name server, in the order of `authorities` from
/// `from` on, whose address stands among `additionals`.
pub open spec fn find_glued_server(
    authorities: Seq<RecordModel>,
    additionals: Seq<RecordModel>,
    from: int,
) -> Option<Ipv4Address>
    decreases authorities.len() - from,
{
    if from < 0 || from >= authorities.len() {
        None
    } else if names_server(authorities[from]) && find_glue(
        additionals,
        authorities[from].data->Name_0,
        0,
    ) is Some {
        Some(
            additionals[find_glue(additionals, authorities[from].data->Name_0, 0)->Some_0].data->Address_0,
        )
    } else {
        find_glued_server(authorities, additionals, from + 1)
    }
}

/// What the response `m` means for the lookup of `domain` and `record_type`:
///
/// - the data of the first answer record with that name and type;
/// - else the target of the first answer record that makes the name an alias;
/// - else the address of the first name server of the authority section
///   that has an address record in the additional section;
/// - else the name of the first name server of the authority section;
/// - else nothing.
pub open spec fn classify_spec(m: MessageModel, domain: Seq<Seq<u8>>, record_type: u16)
    -> OutcomeModel {
    if find_answer(m.answers, domain, record_type, 0) is Some {
        OutcomeModel::Answer(m.answers[find_answer(m.answers, domain, record_type, 0)->Some_0].data)
    } else if find_alias(m.answers, domain, 0) is Some {
        OutcomeModel::Alias(m.answers[find_alias(m.answers, domain, 0)->Some_0].data->Name_0)
    } else if find_glued_server(m.authorities, m.additionals, 0) is Some {
        OutcomeModel::Referral(find_glued_server(m.authorities, m.additionals, 0)->Some_0)
    } else if find_server(m.authorities, 0) is Some {
        OutcomeModel::Glueless(m.authorities[find_server(m.authorities, 0)->Some_0].data->Name_0)
    } else {
        OutcomeModel::NoAnswer
    }
}

/// What `find_answer` finds answers the question, and no record before it
/// from `from` on does; it finds nothing only if no record from `from` on
/// answers the question.
pub proof fn lemma_find_answer_is_first(
    records: Seq<RecordModel>,
    domain: Seq<Seq<u8>>,
    record_type: u16,
    from: int,
)
    requires
        0 <= from,
    ensures
        match find_answer(records, domain, record_type, from) {
            Some(i) => from <= i < records.len() && answers_question(records[i], domain, record_type)
                && forall|j: int| from <= j < i ==> !answers_question(records[j], domain, record_type),
            None => forall|j: int|
                from <= j < records.len() ==> !answers_question(records[j], domain, record_type),
        },
    decreases records.len() - from,
{
    if from < records.len() && !answers_question(records[from], domain, record_type) {
        lemma_find_answer_is_first(records, domain, record_type, from + 1);
    }
}

/// What `find_alias` finds makes the name an alias, and no record before it
/// from `from` on does; it finds nothing only if no record from `from` on does.
pub proof fn lemma_find_alias_is_first(records: Seq<RecordModel>, domain: Seq<Seq<u8>>, from: int)
    requires
        0 <= from,
    ensures
        match find_alias(records, domain, from) {
            Some(i) => from <= i < records.len() && is_alias_of(records[i], domain) && forall|j: int|
                from <= j < i ==> !is_alias_of(records[j], domain),
            None => forall|j: int| from <= j < records.len() ==> !is_alias_of(records[j], domain),
        },
    decreases records.len() - from,
{
    if from < records.len() && !is_alias_of(records[from], domain) {
        lemma_find_alias_is_first(records, domain, from + 1);
    }
}

/// What `find_server` finds names a name server, and no record before it
/// from `from` on does; it finds nothing only if no record from `from` on does.
pub proof fn lemma_find_server_is_first(records: Seq<RecordModel>, from: int)
    requires
        0 <= from,
    ensures
        match find_server(records, from) {
            Some(i) => from <= i < records.len() && names_server(records[i]) && forall|j: int|
                from <= j < i ==> !names_server(records[j]),
            None => forall|j: int| from <= j < records.len() ==> !names_server(records[j]),
        },
    decreases records.len() - from,
{
    if from < records.len() && !names_server(records[from]) {
        lemma_find_server_is_first(records, from + 1);
    }
}

/// What `find_glue` finds gives the address of the server, and no record
/// before it from `from` on does; it finds nothing only if no record from
/// `from` on does.
pub proof fn lemma_find_glue_is_first(records: Seq<RecordModel>, server: Seq<Seq<u8>>, from: int)
    requires
        0 <= from,
    ensures
        match find_glue(records, server, from) {
            Some(i) => from <= i < records.len() && is_glue_for(records[i], server) && forall|j: int|
                from <= j < i ==> !is_glue_for(records[j], server),
            None => forall|j: int| from <= j < records.len() ==> !is_glue_for(records[j], server),
        },
    decreases records.len() - from,
{
    if from < records.len() && !is_glue_for(records[from], server) {
        lemma_find_glue_is_first(records, server, from + 1);
    }
}

/// The address that `find_glued_server` finds is given, among the
/// additional records, for a name server that the authority records name; it
/// finds nothing only if no name server named from `from` on has its address
/// there.
pub proof fn lemma_find_glued_server_is_sound(
    authorities: Seq<RecordModel>,
    additionals: Seq<RecordModel>,
    from: int,
)
    requires
        0 <= from,
    ensures
        match find_glued_server(authorities, additionals, from) {
            Some(a) => exists|i: int, j: int|
                from <= i < authorities.len() && 0 <= j < additionals.len() && names_server(
                    authorities[i],
                ) && is_glue_for(#[trigger] additionals[j], (#[trigger] authorities[i]).data->Name_0)
                    && additionals[j].data == DataModel::Address(a),
            None => forall|i: int, j: int|
                from <= i < authorities.len() && 0 <= j < additionals.len() && names_server(
                    authorities[i],
                ) ==> !is_glue_for(#[trigger] additionals[j], (#[trigger] authorities[i]).data->Name_0),
        },
    decreases authorities.len() - from,
{
    if from < authorities.len() {
        if names_server(authorities[from]) {
            lemma_find_glue_is_first(additionals, authorities[from].data->Name_0, 0);
        }
        if names_server(authorities[from]) && find_glue(
            additionals,
            authorities[from].data->Name_0,
            0,
        ) is Some {
            let j = find_glue(additionals, authorities[from].data->Name_0, 0)->Some_0;
            assert(is_glue_for(additionals[j], authorities[from].data->Name_0));
        } else {
            lemma_find_glued_server_is_sound(authorities, additionals, from + 1);
        }
    }
}

/// The first record that answers the question for `domain` and `record_type`.
fn first_answer(records: &Vec<ResourceRecord>, domain: &DomainName, record_type: u16) -> (r:
    Option<usize>)
    ensures
        match r {
            Some(i) => find_answer(records_view(records@), domain@, record_type, 0) == Some(
                i as int,
            ) && i < records@.len() && answers_question(records@[i as int]@, domain@, record_type),
            None => find_answer(records_view(records@), domain@, record_type, 0) is None,
        },
{
    let mut i: usize = 0;
    while i < records.len()
        invariant
            i <= records.len(),
            find_answer(records_view(records@), domain@, record_type, 0) == find_answer(
                records_view(records@),
                domain@,
                record_type,
                i as int,
            ),
        decreases records.len() - i,
    {
        assert(records_view(records@)[i as int] == records@[i as int]@);
        if records[i].type_ == record_type && records[i].name.same_as(domain) {
            return Some(i);
        }
        i += 1;
    }
    None
}

/// The first record that makes `domain` an alias.
fn first_alias(records: &Vec<ResourceRecord>, domain: &DomainName) -> (r: Option<usize>)
    ensures
        match r {
            Some(i) => find_alias(records_view(records@), domain@, 0) == Some(i as int) && i
                < records@.len() && is_alias_of(records@[i as int]@, domain@),
            None => find_alias(records_view(records@), domain@, 0) is None,
        },
{
    let mut i: usize = 0;
    while i < records.len()
        invariant
            i <= records.len(),
            find_alias(records_view(records@), domain@, 0) == find_alias(
                records_view(records@),
                domain@,
                i as int,
            ),
        decreases records.len() - i,
    {
        assert(records_view(records@)[i as int] == records@[i as int]@);
        let is_name = match &records[i].data {
            RecordData::Name(_) => true,
            _ => false,
        };
        if is_name && records[i].type_ == TYPE_CNAME && records[i].name.same_as(domain) {
            return Some(i);
        }
        i += 1;
    }
    None
}

/// The first record that names a name server.
fn first_server(records: &Vec<ResourceRecord>) -> (r: Option<usize>)
    ensures
        match r {
            Some(i) => find_server(records_view(records@), 0) == Some(i as int) && i
                < records@.len() && names_server(records@[i as int]@),
            None => find_server(records_view(records@), 0) is None,
        },
{
    let mut i: usize = 0;
    while i < records.len()
        invariant
            i <= records.len(),
            find_server(records_view(records@), 0) == find_server(
                records_view(records@),
                i as int,
            ),
        decreases records.len() - i,
    {
        assert(records_view(records@)[i as int] == records@[i as int]@);
        let is_name = match &records[i].data {
            RecordData::Name(_) => true,
            _ => false,
        };
        if is_name && records[i].type_ == TYPE_NS {
            return Some(i);
        }
        i += 1;
    }
    None
}

/// The first record that gives the address of `server`.
fn first_glue(records: &Vec<ResourceRecord>, server: &DomainName) -> (r: Option<usize>)
    ensures
        match r {
            Some(i) => find_glue(records_view(records@), server@, 0) == Some(i as int) && i
                < records@.len() && is_glue_for(records@[i as int]@, server@),
            None => find_glue(records_view(records@), server@, 0) is None,
        },
{
    let mut i: usize = 0;
    while i < records.len()
        invariant
            i <= records.len(),
            find_glue(records_view(records@), server@, 0) == find_glue(
                records_view(records@),
                server@,
                i as int,
            ),
        decreases records.len() - i,
    {
        assert(records_view(records@)[i as int] == records@[i as int]@);
        let is_address = match &records[i].data {
            RecordData::Address(_) => true,
            _ => false,
        };
        if is_address && records[i].type_ == TYPE_A && records[i].name.same_as(server) {
            return Some(i);
        }
        i += 1;
    }
    None
}

/// The address of the first name server of `authorities` whose address
/// stands among `additionals`.
fn first_glued_server(authorities: &Vec<ResourceRecord>, additionals: &Vec<ResourceRecord>) -> (r:
    Option<Ipv4Address>)
    ensures
        r == find_glued_server(records_view(authorities@), records_view(additionals@), 0),
{
    let mut i: usize = 0;
    while i < authorities.len()
        invariant
            i <= authorities.len(),
            find_glued_server(records_view(authorities@), records_view(additionals@), 0)
                == find_glued_server(
                records_view(authorities@),
                records_view(additionals@),
                i as int,
            ),
        decreases authorities.len() - i,
    {
        assert(records_view(authorities@)[i as int] == authorities@[i as int]@);
        if authorities[i].type_ == TYPE_NS {
            match &authorities[i].data {
                RecordData::Name(server) => {
                    match first_glue(additionals, server) {
                        Some(j) => {
                            assert(records_view(additionals@)[j as int] == additionals@[j as int]@);
                            match &additionals[j].data {
                                RecordData::Address(a) => {
                                    return Some(*a);
                                },
                                _ => {},
                            }
                        },
                        None => {},
                    }
                },
                _ => {},
            }
        }
        i += 1;
    }
    None
}

/// Reads the response `m` for the lookup of `domain` and `record_type`, in
/// this order: an answer record with that name and type gives its data; else
/// an answer record that makes the name an alias gives the alias target;
/// else the first name server of the authority section whose address is in
/// the additional section gives that address; else the first name server of
/// the authority section gives its name; else there is no answer.
pub fn classify(m: &Message, domain: &DomainName, record_type: u16) -> (o: Outcome)
    ensures
        o@ == classify_spec(m@, domain@, record_type),
{
    match first_answer(&m.answers, domain, record_type) {
        Some(i) => {
            assert(records_view(m.answers@)[i as int] == m.answers@[i as int]@);
            return Outcome::Answer(m.answers[i].data.duplicate());
        },
        None => {},
    }
    match first_alias(&m.answers, domain) {
        Some(i) => {
            assert(records_view(m.answers@)[i as int] == m.answers@[i as int]@);
            match &m.answers[i].data {
                RecordData::Name(target) => {
                    return Outcome::Alias(target.duplicate());
                },
                _ => {},
            }
        },
        None => {},
    }
    match first_glued_server(&m.authorities, &m.additionals) {
        Some(a) => {
            return Outcome::Referral(a);
        },
        None => {},
    }
    match first_server(&m.authorities) {
        Some(i) => {
            assert(records_view(m.authorities@)[i as int] == m.authorities@[i as int]@);
            match &m.authorities[i].data {
                RecordData::Name(server) => {
                    return Outcome::Glueless(server.duplicate());
                },
                _ => {},
            }
        },
        None => {},
    }
    Outcome::NoAnswer
}

} // verus!
