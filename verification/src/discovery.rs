//! Service discovery: where the ServiceDiscoveryResponse of the head unit says
//! that the ExLAP vendor service is, and the request that opens a channel.

use crate::packet::{
    control_id, same_bytes, Packet, PacketView, ProxyType, CONTROL_FLAG, ENCRYPTED,
    FRAME_TYPE_FIRST, FRAME_TYPE_LAST, MSG_CHANNEL_OPEN_REQUEST,
};
use crate::wire::{
    all_well_formed, encode_varint, law_all_fields_read_back, law_broken_fields_end_the_reading,
    law_fields_read_back, law_varint_reads_what_was_written, lemma_fields_behind,
    lemma_fields_step, lemma_varint_bytes_len, next_field, varint, varint_bytes, wire_field,
    wire_fields, written, Field, WireField, Written,
};
use vstd::prelude::*;
use vstd::slice::slice_subrange;
use vstd::utf8::encode_utf8;

verus! {

/// The name of the ExLAP vendor service.
pub const EXLAP_SERVICE_NAME: &'static str = "com.vwag.infotainment.gal.exlap";

/// The field is a VendorExtensionService's name, and it is the ExLAP name.
pub open spec fn is_exlap_name(f: WireField) -> bool {
    f matches WireField::Bytes { field, body } && field == 1 && body
        == encode_utf8(EXLAP_SERVICE_NAME@)
}

/// The VendorExtensionService message has a service name that is the ExLAP one.
pub open spec fn names_exlap(data: Seq<u8>) -> bool {
    exists|i: int|
        0 <= i < wire_fields(data, 0).fields.len() && is_exlap_name(
            #[trigger] wire_fields(data, 0).fields[i],
        )
}

/// The field is the vendor extension of a Service message, and it is ExLAP's.
pub open spec fn is_exlap_extension(f: WireField) -> bool {
    f matches WireField::Bytes { field, body } && field == 12 && names_exlap(body)
}

/// The field is a vendor extension that reaches past its message.
pub open spec fn is_cut_extension(f: WireField) -> bool {
    f matches WireField::Cut { field } && field == 12
}

/// The id that a Service message states last, if it states one.
pub open spec fn stated_id(fields: Seq<WireField>) -> Option<i32>
    decreases fields.len(),
{
    if fields.len() == 0 {
        None
    } else {
        match fields.last() {
            WireField::Varint { field: 1, value } => Some(value as i32),
            _ => stated_id(fields.drop_last()),
        }
    }
}

/// Some field satisfies `p`.
pub open spec fn any_field(fields: Seq<WireField>, p: spec_fn(WireField) -> bool) -> bool {
    exists|i: int| 0 <= i < fields.len() && p(#[trigger] fields[i])
}

/// The id of a Service message that is the ExLAP service: every field can be
/// read, no vendor extension is cut short, and one of them is ExLAP's.
pub open spec fn exlap_service(data: Seq<u8>) -> Option<i32> {
    let w = wire_fields(data, 0);
    if w.complete && !any_field(w.fields, |f: WireField| is_cut_extension(f)) && any_field(
        w.fields,
        |f: WireField| is_exlap_extension(f),
    ) {
        stated_id(w.fields)
    } else {
        None
    }
}

/// The id of the first ExLAP service among the fields of a
/// ServiceDiscoveryResponse.
pub open spec fn first_exlap_service(fields: Seq<WireField>) -> Option<i32>
    decreases fields.len(),
{
    if fields.len() == 0 {
        None
    } else {
        let rest = first_exlap_service(fields.drop_first());
        match fields[0] {
            WireField::Bytes { field: 1, body } => match exlap_service(body) {
                Some(id) => Some(id),
                None => rest,
            },
            _ => rest,
        }
    }
}

/// The id of the ExLAP service that a ServiceDiscoveryResponse advertises.
pub open spec fn advertised_exlap(data: Seq<u8>) -> Option<i32> {
    first_exlap_service(wire_fields(data, 0).fields)
}

/// Parses a ServiceDiscoveryResponse protobuf and returns the service id of the
/// ExLAP VendorExtensionService, if present.
pub fn find_exlap_service_id(data: &[u8]) -> (r: Option<i32>)
    ensures
        r == advertised_exlap(data@),
{
    let mut pos: usize = 0;
    while pos < data.len()
        invariant
            pos <= data@.len(),
            advertised_exlap(data@) == first_exlap_service(wire_fields(data@, pos as nat).fields),
        decreases data@.len() - pos,
    {
        let (f, next): (Field, usize) = match next_field(data, pos) {
            Some(x) => x,
            None => return None,
        };
        let ghost here = wire_fields(data@, pos as nat).fields;
        proof {
            lemma_fields_step(data@, pos as nat, next as nat);
            assert(here.drop_first() == wire_fields(data@, next as nat).fields);
            assert(here[0] == f.of(data@));
        }
        match f {
            Field::Bytes { field, start, end } => {
                if field == 1 {
                    match parse_service_for_exlap(slice_subrange(data, start, end)) {
                        Some(id) => return Some(id),
                        None => {},
                    }
                }
            },
            Field::Cut { field } => {
                if field == 1 {
                    assert(wire_fields(data@, next as nat).fields.len() == 0);
                    assert(first_exlap_service(here.drop_first()) is None);
                    return None;
                }
            },
            _ => {},
        }
        pos = next;
    }
    None
}

/// Parses a Service protobuf message, returning its `id` if it has a
/// VendorExtensionService with the ExLAP service name.
pub fn parse_service_for_exlap(data: &[u8]) -> (r: Option<i32>)
    ensures
        r == exlap_service(data@),
{
    let mut pos: usize = 0;
    let mut id: Option<i32> = None;
    let mut is_exlap: bool = false;
    let ghost w = wire_fields(data@, 0);
    let ghost mut done: Seq<WireField> = Seq::empty();
    let ghost ext = |f: WireField| is_exlap_extension(f);
    let ghost cut = |f: WireField| is_cut_extension(f);
    assert(w.fields == done + w.fields);
    while pos < data.len()
        invariant
            pos <= data@.len(),
            w == wire_fields(data@, 0),
            ext == (|f: WireField| is_exlap_extension(f)),
            cut == (|f: WireField| is_cut_extension(f)),
            w.fields == done + wire_fields(data@, pos as nat).fields,
            w.complete == wire_fields(data@, pos as nat).complete,
            id == stated_id(done),
            is_exlap == any_field(done, ext),
            !any_field(done, cut),
        decreases data@.len() - pos,
    {
        let (f, next): (Field, usize) = match next_field(data, pos) {
            Some(x) => x,
            None => return None,
        };
        let ghost g = f.of(data@);
        let ghost before = done;
        proof {
            lemma_fields_step(data@, pos as nat, next as nat);
            done = done.push(g);
            assert(w.fields == done + wire_fields(data@, next as nat).fields);
            assert(done.drop_last() == before);
            assert(w.fields[before.len() as int] == g);
            assert(forall|i: int| 0 <= i < before.len() ==> done[i] == before[i]);
            assert(done[before.len() as int] == g);
        }
        match f {
            Field::Varint { field, value } => {
                if field == 1 {
                    id = Some(value as i32);
                }
                assert(!ext(g) && !cut(g));
            },
            Field::Bytes { field, start, end } => {
                if field == 12 && is_exlap_vendor_service(slice_subrange(data, start, end)) {
                    is_exlap = true;
                    assert(ext(g));
                }
                assert(!cut(g));
            },
            Field::Cut { field } => {
                if field == 12 {
                    assert(cut(w.fields[before.len() as int]));
                    return None;
                }
                assert(!ext(g) && !cut(g));
            },
            Field::Fixed { field } => {
                assert(!ext(g) && !cut(g));
            },
        }
        pos = next;
    }
    assert(w.fields == done);
    if is_exlap {
        id
    } else {
        None
    }
}

/// Returns true if this VendorExtensionService protobuf has the ExLAP service
/// name.
pub fn is_exlap_vendor_service(data: &[u8]) -> (r: bool)
    ensures
        r == names_exlap(data@),
{
    let name: &[u8] = EXLAP_SERVICE_NAME.as_bytes();
    let mut pos: usize = 0;
    let ghost fields = wire_fields(data@, 0).fields;
    let ghost mut done: nat = 0;
    while pos < data.len()
        invariant
            pos <= data@.len(),
            name@ == encode_utf8(EXLAP_SERVICE_NAME@),
            fields == wire_fields(data@, 0).fields,
            done <= fields.len(),
            fields.skip(done as int) == wire_fields(data@, pos as nat).fields,
            forall|i: int| 0 <= i < done ==> !is_exlap_name(#[trigger] fields[i]),
        decreases data@.len() - pos,
    {
        let (f, next): (Field, usize) = match next_field(data, pos) {
            Some(x) => x,
            None => {
                assert(fields.skip(done as int).len() == 0);
                return false;
            },
        };
        proof {
            lemma_fields_step(data@, pos as nat, next as nat);
            let rest = fields.skip(done as int);
            assert(rest == seq![f.of(data@)] + wire_fields(data@, next as nat).fields);
            assert(rest.len() == fields.len() - done);
            assert(rest[0] == f.of(data@));
            assert(rest.skip(1) == fields.skip((done + 1) as int));
            assert(rest.skip(1) == wire_fields(data@, next as nat).fields);
            assert(fields[done as int] == f.of(data@));
            assert(fields.skip((done + 1) as int) == wire_fields(data@, next as nat).fields);
        }
        match f {
            Field::Bytes { field, start, end } => {
                if field == 1 && same_bytes(slice_subrange(data, start, end), name) {
                    assert(is_exlap_name(fields[done as int]));
                    return true;
                }
            },
            Field::Cut { field } => {
                if field == 1 {
                    assert(fields.skip((done + 1) as int).len() == 0);
                    return false;
                }
            },
            _ => {},
        }
        proof {
            done = done + 1;
        }
        pos = next;
    }
    assert(fields.skip(done as int).len() == 0);
    false
}

// -- A response that advertises ExLAP --------------------------------------------

/// A length-delimited field with this tag.
pub open spec fn bytes_field(tag: u8, body: Seq<u8>) -> Seq<u8> {
    seq![tag] + varint_bytes(body.len()) + body
}

/// A varint field with this tag.
pub open spec fn varint_field(tag: u8, value: u64) -> Seq<u8> {
    seq![tag] + varint_bytes(value as nat)
}

/// A Service message with an id and the vendor extension of ExLAP.
pub open spec fn exlap_service_message(id: u64) -> Seq<u8> {
    varint_field(0x08, id) + bytes_field(0x62, bytes_field(0x0A, encode_utf8(EXLAP_SERVICE_NAME@)))
}

/// A tag of one byte stands for itself.
proof fn lemma_tag(before: Seq<u8>, tag: u8, after: Seq<u8>)
    requires
        tag < 128,
    ensures
        varint(before + seq![tag] + after, before.len() as int) == Some((tag as u64, 1nat)),
{
    assert(varint_bytes(tag as nat) =~= seq![tag]);
    law_varint_reads_what_was_written(before, tag as u64, after);
}

/// A length-delimited field is read where it stands.
proof fn lemma_bytes_field(before: Seq<u8>, tag: u8, body: Seq<u8>, after: Seq<u8>)
    requires
        tag < 128,
        tag & 7 == 2,
        body.len() <= usize::MAX,
    ensures
        wire_field(before + bytes_field(tag, body) + after, before.len() as int) == Some(
            (
                WireField::Bytes { field: (tag >> 3) as u32, body },
                (before.len() + bytes_field(tag, body).len()) as int,
            ),
        ),
{
    let data = before + bytes_field(tag, body) + after;
    let len = varint_bytes(body.len());
    lemma_tag(before, tag, len + body + after);
    assert(data =~= before + seq![tag] + (len + body + after));
    law_varint_reads_what_was_written(before + seq![tag], body.len() as u64, body + after);
    assert(data =~= (before + seq![tag]) + len + (body + after));
    let t = tag as u64;
    assert((t >> 3) as u32 == (tag >> 3) as u32 && (t & 7) as u8 == tag & 7) by (bit_vector)
        requires
            t == tag as u64,
    ;
    let start = before.len() + 1 + len.len();
    assert(data.subrange(start as int, (start + body.len()) as int) =~= body);
}

/// A varint field is read where it stands.
proof fn lemma_varint_field(before: Seq<u8>, tag: u8, value: u64, after: Seq<u8>)
    requires
        tag < 128,
        tag & 7 == 0,
    ensures
        wire_field(before + varint_field(tag, value) + after, before.len() as int) == Some(
            (
                WireField::Varint { field: (tag >> 3) as u32, value },
                (before.len() + varint_field(tag, value).len()) as int,
            ),
        ),
{
    let data = before + varint_field(tag, value) + after;
    let bytes = varint_bytes(value as nat);
    lemma_tag(before, tag, bytes + after);
    assert(data =~= before + seq![tag] + (bytes + after));
    law_varint_reads_what_was_written(before + seq![tag], value, after);
    assert(data =~= (before + seq![tag]) + bytes + after);
    let t = tag as u64;
    assert((t >> 3) as u32 == (tag >> 3) as u32 && (t & 7) as u8 == tag & 7) by (bit_vector)
        requires
            t == tag as u64,
    ;
}

/// The services of a response are tried in order: the first one decides if it is
/// ExLAP's, and what follows it decides if it is not, whatever bytes they are.
pub proof fn law_services_are_tried_in_order(service: Seq<u8>, after: Seq<u8>)
    requires
        service.len() <= usize::MAX,
    ensures
        advertised_exlap(bytes_field(0x0A, service) + after) == match exlap_service(service) {
            Some(id) => Some(id),
            None => advertised_exlap(after),
        },
{
    let none = Seq::<u8>::empty();
    let first = bytes_field(0x0A, service);
    let data = first + after;
    assert(0x0Au8 & 7 == 2 && (0x0Au8 >> 3) as u32 == 1) by (bit_vector);
    lemma_bytes_field(none, 0x0A, service, after);
    assert(none + first + after =~= data);
    lemma_fields_step(data, 0, first.len());
    lemma_fields_behind(first, after, 0);
    let fields = wire_fields(data, 0).fields;
    assert(fields[0] == (WireField::Bytes { field: 1, body: service }));
    assert(fields.drop_first() =~= wire_fields(after, 0).fields);
}

/// The ExLAP service is found by its name, and its id is read, whatever follows
/// it in the response.
pub proof fn law_exlap_service_is_found(id: u64, after: Seq<u8>)
    ensures
        advertised_exlap(bytes_field(0x0A, exlap_service_message(id)) + after) == Some(id as i32),
{
    let none = Seq::<u8>::empty();
    let name = encode_utf8(EXLAP_SERVICE_NAME@);
    reveal_strlit("com.vwag.infotainment.gal.exlap");
    vstd::utf8::is_ascii_chars_encode_utf8(EXLAP_SERVICE_NAME@);
    assert(vstd::utf8::is_ascii_chars(EXLAP_SERVICE_NAME@));
    assert(name.len() == 31);
    assert(0x0Au8 & 7 == 2 && 0x62u8 & 7 == 2 && 0x08u8 & 7 == 0 && (0x0Au8 >> 3) as u32 == 1 && (
    0x62u8 >> 3) as u32 == 12 && (0x08u8 >> 3) as u32 == 1) by (bit_vector);
    // The extension.
    let ext = bytes_field(0x0A, name);
    assert(varint_bytes(31) =~= seq![31u8]);
    assert(ext.len() == 33);
    lemma_bytes_field(none, 0x0A, name, none);
    assert(none + ext + none =~= ext);
    lemma_fields_step(ext, 0, ext.len());
    assert(is_exlap_name(wire_fields(ext, 0).fields[0]));
    // The service.
    let first = varint_field(0x08, id);
    let second = bytes_field(0x62, ext);
    let service = exlap_service_message(id);
    assert(varint_bytes(33) =~= seq![33u8]);
    assert(second.len() == 35);
    lemma_varint_field(none, 0x08, id, second);
    assert(none + first + second =~= service);
    lemma_fields_step(service, 0, first.len());
    lemma_bytes_field(first, 0x62, ext, none);
    assert(first + second + none =~= service);
    lemma_fields_step(service, first.len(), service.len());
    assert(wire_fields(service, service.len()).fields =~= Seq::<WireField>::empty());
    let a = WireField::Varint { field: 1, value: id };
    let b = WireField::Bytes { field: 12, body: ext };
    let w = wire_fields(service, 0);
    assert(w.fields =~= seq![a, b]);
    assert(w.fields[0] == a && w.fields[1] == b);
    assert(is_exlap_extension(w.fields[1]));
    assert(w.fields.drop_last() =~= seq![a]);
    assert(seq![a].last() == a);
    assert(stated_id(seq![a]) == Some(id as i32));
    assert(exlap_service(service) == Some(id as i32));
    // The response.
    lemma_varint_bytes_len(id as nat);
    law_services_are_tried_in_order(service, after);
}

// -- Which fields are looked at --------------------------------------------------

/// A vendor extension with the name of ExLAP is recognised, whatever fields stand
/// around the name and whatever bytes follow them.
pub proof fn law_extension_is_recognised(list: Seq<Written>, k: int, after: Seq<u8>)
    requires
        all_well_formed(list),
        0 <= k < list.len(),
        list[k] == (Written::Bytes {
            tag: 0x0A,
            body: encode_utf8("com.vwag.infotainment.gal.exlap"@),
        }),
    ensures
        names_exlap(written(list) + after),
{
    law_fields_read_back(list, after);
    let fields = wire_fields(written(list) + after, 0).fields;
    assert(fields[k] == list[k].read());
    assert(is_exlap_name(fields[k]));
}

/// A vendor extension in which no field is the name of ExLAP is not recognised.
pub proof fn law_other_extension_is_not_recognised(list: Seq<Written>)
    requires
        all_well_formed(list),
        forall|i: int|
            0 <= i < list.len() ==> !((#[trigger] list[i]) matches Written::Bytes { tag, body }
                && (tag / 8) as u32 == 1 && body == encode_utf8(
                "com.vwag.infotainment.gal.exlap"@,
            )),
    ensures
        !names_exlap(written(list)),
{
    law_all_fields_read_back(list);
    let fields = wire_fields(written(list), 0).fields;
    assert forall|i: int| 0 <= i < fields.len() implies !is_exlap_name(#[trigger] fields[i]) by {
        assert(fields[i] == list[i].read());
    }
}

/// A service with a vendor extension of ExLAP has the id that it states last,
/// whatever other fields it has, in any order.
pub proof fn law_service_is_read(
    list: Seq<Written>,
    extension: int,
    body: Seq<u8>,
    at: int,
    id: u64,
)
    requires
        all_well_formed(list),
        0 <= extension < list.len(),
        list[extension] == (Written::Bytes { tag: 0x62, body }),
        names_exlap(body),
        0 <= at < list.len(),
        list[at] == (Written::Varint { tag: 0x08, value: id }),
        forall|i: int|
            at < i < list.len() ==> !((#[trigger] list[i]) matches Written::Varint { tag, .. }
                && (tag / 8) as u32 == 1),
    ensures
        exlap_service(written(list)) == Some(id as i32),
{
    law_all_fields_read_back(list);
    let fields = wire_fields(written(list), 0).fields;
    lemma_no_cut(list);
    assert(fields[extension] == list[extension].read());
    assert(is_exlap_extension(fields[extension]));
    assert(fields[at] == list[at].read());
    assert forall|i: int| at < i < fields.len() implies !((#[trigger] fields[i]) matches WireField::Varint {
        field: 1,
        ..
    }) by {
        assert(fields[i] == list[i].read());
    }
    lemma_stated_id(fields, at, id);
}

/// A service that states no id, or has no vendor extension of ExLAP, is not
/// ExLAP's.
pub proof fn law_other_service_is_not_read(list: Seq<Written>)
    requires
        all_well_formed(list),
        (forall|i: int|
            0 <= i < list.len() ==> !((#[trigger] list[i]) matches Written::Varint { tag, .. }
                && (tag / 8) as u32 == 1)) || (forall|i: int|
            0 <= i < list.len() ==> !((#[trigger] list[i]) matches Written::Bytes { tag, body }
                && (tag / 8) as u32 == 12 && names_exlap(body))),
    ensures
        exlap_service(written(list)) is None,
{
    law_all_fields_read_back(list);
    let fields = wire_fields(written(list), 0).fields;
    assert forall|i: int| 0 <= i < fields.len() implies #[trigger] fields[i] == list[i].read() by {}
    if stated_id(fields) is Some {
        let at = lemma_id_is_stated(fields);
        assert(fields[at] == list[at].read());
        assert(list[at] matches Written::Varint { tag, .. } && (tag / 8) as u32 == 1);
    }
}

proof fn lemma_no_cut(list: Seq<Written>)
    requires
        all_well_formed(list),
    ensures
        !any_field(wire_fields(written(list), 0).fields, |f: WireField| is_cut_extension(f)),
{
    law_all_fields_read_back(list);
    let fields = wire_fields(written(list), 0).fields;
    assert forall|i: int| 0 <= i < fields.len() implies !is_cut_extension(#[trigger] fields[i]) by {
        assert(fields[i] == list[i].read());
    }
}

proof fn lemma_stated_id(fields: Seq<WireField>, at: int, id: u64)
    requires
        0 <= at < fields.len(),
        fields[at] == (WireField::Varint { field: 1, value: id }),
        forall|i: int|
            at < i < fields.len() ==> !((#[trigger] fields[i]) matches WireField::Varint {
                field: 1,
                ..
            }),
    ensures
        stated_id(fields) == Some(id as i32),
    decreases fields.len(),
{
    assert(fields.last() == fields[fields.len() - 1]);
    if at < fields.len() - 1 {
        let rest = fields.drop_last();
        assert forall|i: int| at < i < rest.len() implies !((#[trigger] rest[i]) matches WireField::Varint {
            field: 1,
            ..
        }) by {
            assert(rest[i] == fields[i]);
        }
        lemma_stated_id(rest, at, id);
    }
}

proof fn lemma_id_is_stated(fields: Seq<WireField>) -> (at: int)
    requires
        stated_id(fields) is Some,
    ensures
        0 <= at < fields.len(),
        fields[at] matches WireField::Varint { field: 1, .. },
    decreases fields.len(),
{
    assert(fields.last() == fields[fields.len() - 1]);
    match fields.last() {
        WireField::Varint { field: 1, .. } => fields.len() - 1,
        _ => {
            let at = lemma_id_is_stated(fields.drop_last());
            assert(fields.drop_last()[at] == fields[at]);
            at
        },
    }
}

/// A response advertises the first service that is ExLAP's, whatever other fields
/// and services it has, and whatever bytes follow.
pub proof fn law_first_exlap_service_is_advertised(
    list: Seq<Written>,
    k: int,
    service: Seq<u8>,
    id: i32,
    after: Seq<u8>,
)
    requires
        all_well_formed(list),
        0 <= k < list.len(),
        list[k] == (Written::Bytes { tag: 0x0A, body: service }),
        exlap_service(service) == Some(id),
        forall|i: int|
            0 <= i < k ==> !((#[trigger] list[i]) matches Written::Bytes { tag, body } && (tag
                / 8) as u32 == 1 && exlap_service(body) is Some),
    ensures
        advertised_exlap(written(list) + after) == Some(id),
{
    law_fields_read_back(list, after);
    let fields = wire_fields(written(list) + after, 0).fields;
    assert forall|i: int| 0 <= i < list.len() implies #[trigger] fields[i] == list[i].read() by {}
    assert forall|i: int| 0 <= i < k implies !is_service_of(#[trigger] fields[i]) by {
        assert(fields[i] == list[i].read());
    }
    assert(fields[k] == list[k].read());
    lemma_first_service(fields, k, id);
}

/// A response in which no service is ExLAP's advertises none.
pub proof fn law_no_exlap_service_is_advertised(list: Seq<Written>)
    requires
        all_well_formed(list),
        forall|i: int|
            0 <= i < list.len() ==> !((#[trigger] list[i]) matches Written::Bytes { tag, body }
                && (tag / 8) as u32 == 1 && exlap_service(body) is Some),
    ensures
        advertised_exlap(written(list)) is None,
{
    law_all_fields_read_back(list);
    let fields = wire_fields(written(list), 0).fields;
    assert forall|i: int| 0 <= i < fields.len() implies !is_service_of(#[trigger] fields[i]) by {
        assert(fields[i] == list[i].read());
    }
    lemma_no_service(fields);
}

/// A field that reaches past the data does not count: a service with one that is no
/// vendor extension is read as if it were not there, and a response that ends in one
/// advertises nothing by it.
pub proof fn law_cut_fields_do_not_count(list: Seq<Written>, tag: u64, len: u64, rest: Seq<u8>)
    requires
        all_well_formed(list),
        tag % 8 == 2,
        rest.len() < len <= usize::MAX,
    ensures
        ({
            let data = written(list) + (varint_bytes(tag as nat) + varint_bytes(len as nat)
                + rest);
            &&& (tag / 8) as u32 != 12 ==> exlap_service(data) == exlap_service(written(list))
            &&& (forall|i: int|
                0 <= i < list.len() ==> !((#[trigger] list[i]) matches Written::Bytes {
                    tag,
                    body,
                } && (tag / 8) as u32 == 1 && exlap_service(body) is Some)) ==> advertised_exlap(
                data,
            ) is None
        }),
{
    let data = written(list) + (varint_bytes(tag as nat) + varint_bytes(len as nat) + rest);
    law_broken_fields_end_the_reading(list, tag, len, rest);
    law_all_fields_read_back(list);
    let whole = wire_fields(written(list), 0).fields;
    let fields = wire_fields(data, 0).fields;
    assert(fields.drop_last() =~= whole);
    if (tag / 8) as u32 != 12 {
        let cut = |f: WireField| is_cut_extension(f);
        let ext = |f: WireField| is_exlap_extension(f);
        assert(!cut(fields.last()) && !ext(fields.last()));
        assert forall|i: int| 0 <= i < whole.len() implies #[trigger] whole[i] == fields[i] by {}
        if any_field(fields, cut) {
            let i = choose|i: int| 0 <= i < fields.len() && cut(#[trigger] fields[i]);
            assert(cut(whole[i]));
        }
        if any_field(whole, cut) {
            let i = choose|i: int| 0 <= i < whole.len() && cut(#[trigger] whole[i]);
            assert(cut(fields[i]));
        }
        if any_field(fields, ext) {
            let i = choose|i: int| 0 <= i < fields.len() && ext(#[trigger] fields[i]);
            assert(ext(whole[i]));
        }
        if any_field(whole, ext) {
            let i = choose|i: int| 0 <= i < whole.len() && ext(#[trigger] whole[i]);
            assert(ext(fields[i]));
        }
        assert(stated_id(fields) == stated_id(whole));
    }
    if forall|i: int|
        0 <= i < list.len() ==> !((#[trigger] list[i]) matches Written::Bytes { tag, body } && (
        tag / 8) as u32 == 1 && exlap_service(body) is Some) {
        assert forall|i: int| 0 <= i < fields.len() implies !is_service_of(
            #[trigger] fields[i],
        ) by {
            if i < whole.len() {
                assert(fields[i] == whole[i]);
                assert(whole[i] == list[i].read());
            }
        }
        lemma_no_service(fields);
    }
}

spec fn is_service_of(f: WireField) -> bool {
    f matches WireField::Bytes { field, body } && field == 1 && exlap_service(body) is Some
}

proof fn lemma_first_service(fields: Seq<WireField>, k: int, id: i32)
    requires
        0 <= k < fields.len(),
        fields[k] matches WireField::Bytes { field, body } && field == 1 && exlap_service(body)
            == Some(id),
        forall|i: int| 0 <= i < k ==> !is_service_of(#[trigger] fields[i]),
    ensures
        first_exlap_service(fields) == Some(id),
    decreases k,
{
    if k > 0 {
        let rest = fields.drop_first();
        assert(rest[k - 1] == fields[k]);
        assert forall|i: int| 0 <= i < k - 1 implies !is_service_of(#[trigger] rest[i]) by {
            assert(rest[i] == fields[i + 1]);
        }
        lemma_first_service(rest, k - 1, id);
        assert(!is_service_of(fields[0]));
    }
}

proof fn lemma_no_service(fields: Seq<WireField>)
    requires
        forall|i: int| 0 <= i < fields.len() ==> !is_service_of(#[trigger] fields[i]),
    ensures
        first_exlap_service(fields) is None,
    decreases fields.len(),
{
    if fields.len() > 0 {
        let rest = fields.drop_first();
        assert forall|i: int| 0 <= i < rest.len() implies !is_service_of(#[trigger] rest[i]) by {
            assert(rest[i] == fields[i + 1]);
        }
        lemma_no_service(rest);
        assert(!is_service_of(fields[0]));
    }
}

/// A service with a field that cannot be read, or with a vendor extension that
/// reaches past its end, is not ExLAP's, whatever stands before that.
pub proof fn law_broken_service_is_not_read(
    list: Seq<Written>,
    tag: u64,
    len: u64,
    rest: Seq<u8>,
)
    requires
        all_well_formed(list),
    ensures
        tag == 0x62 && rest.len() < len <= usize::MAX ==> exlap_service(
            written(list) + (varint_bytes(tag as nat) + varint_bytes(len as nat) + rest),
        ) is None,
        tag % 8 == 3 || tag % 8 == 4 || tag % 8 == 6 || tag % 8 == 7 ==> exlap_service(
            written(list) + (varint_bytes(tag as nat) + rest),
        ) is None,
{
    law_broken_fields_end_the_reading(list, tag, len, rest);
    if tag == 0x62 && rest.len() < len <= usize::MAX {
        let fields = wire_fields(
            written(list) + (varint_bytes(tag as nat) + varint_bytes(len as nat) + rest),
            0,
        ).fields;
        let cut = |f: WireField| is_cut_extension(f);
        assert(cut(fields[fields.len() - 1]));
    }
}

/// The ExLAP service is found in a response, by the name in its vendor extension,
/// whatever other fields the response, the service and the extension have.
pub proof fn law_exlap_is_found_among_other_fields(
    response: Seq<Written>,
    k: int,
    service: Seq<Written>,
    e: int,
    at: int,
    id: u64,
    extension: Seq<Written>,
    n: int,
)
    requires
        all_well_formed(response),
        all_well_formed(service),
        all_well_formed(extension),
        0 <= k < response.len(),
        response[k] == (Written::Bytes { tag: 0x0A, body: written(service) }),
        forall|i: int|
            0 <= i < k ==> !((#[trigger] response[i]) matches Written::Bytes { tag, .. } && (tag
                / 8) as u32 == 1),
        0 <= e < service.len(),
        service[e] == (Written::Bytes { tag: 0x62, body: written(extension) }),
        0 <= at < service.len(),
        service[at] == (Written::Varint { tag: 0x08, value: id }),
        forall|i: int|
            at < i < service.len() ==> !((#[trigger] service[i]) matches Written::Varint { tag, .. }
                && (tag / 8) as u32 == 1),
        0 <= n < extension.len(),
        extension[n] == (Written::Bytes {
            tag: 0x0A,
            body: encode_utf8("com.vwag.infotainment.gal.exlap"@),
        }),
    ensures
        advertised_exlap(written(response)) == Some(id as i32),
{
    let none = Seq::<u8>::empty();
    law_extension_is_recognised(extension, n, none);
    assert(written(extension) + none =~= written(extension));
    law_service_is_read(service, e, written(extension), at, id);
    law_first_exlap_service_is_advertised(response, k, written(service), id as i32, none);
    assert(written(response) + none =~= written(response));
}

// -- Opening a channel -----------------------------------------------------------

/// A ChannelOpenRequest for a service: priority 0 in field 1, the service id in
/// field 2.
pub open spec fn chan_open_request(channel: u8, service_id: i32) -> PacketView {
    PacketView {
        proxy_type: ProxyType::MobileDevice,
        channel,
        packet_flags: 0x0F,
        final_length: None,
        message_id: MSG_CHANNEL_OPEN_REQUEST,
        payload: seq![0u8, 7u8, 0x08u8, 0u8, 0x10u8] + varint_bytes((service_id as u64) as nat),
    }
}

/// Builds a ChannelOpenRequest packet for the given channel and service id. The
/// phone opens the ExLAP channel itself, so nothing sends this yet.
pub fn build_chan_open_request(channel: u8, service_id: i32) -> (r: Packet)
    ensures
        r@ == chan_open_request(channel, service_id),
{
    let mut payload: Vec<u8> = Vec::new();
    payload.push((MSG_CHANNEL_OPEN_REQUEST >> 8) as u8);
    payload.push((MSG_CHANNEL_OPEN_REQUEST & 0xFF) as u8);
    payload.push(0x08);
    payload.push(0x00);
    payload.push(0x10);
    assert((7u16 >> 8) as u8 == 0u8) by (bit_vector);
    assert((7u16 & 0xFF) as u8 == 7u8) by (bit_vector);
    assert(payload@ == seq![0u8, 7u8, 0x08u8, 0u8, 0x10u8]);
    encode_varint(service_id as u64, &mut payload);
    assert(0x08u8 | 0x04u8 | 0x01u8 | 0x02u8 == 0x0Fu8) by (bit_vector);
    Packet {
        proxy_type: ProxyType::MobileDevice,
        channel,
        packet_flags: ENCRYPTED | CONTROL_FLAG | FRAME_TYPE_FIRST | FRAME_TYPE_LAST,
        final_length: None,
        message_id: MSG_CHANNEL_OPEN_REQUEST,
        payload,
    }
}

/// A ChannelOpenRequest says what it is, and names its service.
pub proof fn law_open_request_names_its_service(channel: u8, service_id: i32)
    ensures
        ({
            let pkt = chan_open_request(channel, service_id);
            &&& pkt.proxy_type == ProxyType::MobileDevice
            &&& pkt.channel == channel
            &&& pkt.packet_flags == 0x0F
            &&& pkt.final_length is None
            &&& pkt.message_id == 7
            &&& control_id(pkt.payload) == MSG_CHANNEL_OPEN_REQUEST
            &&& pkt.payload.take(5) == seq![0u8, 7u8, 0x08u8, 0u8, 0x10u8]
            &&& varint(pkt.payload, 5) == Some(
                (service_id as u64, varint_bytes((service_id as u64) as nat).len()),
            )
        }),
{
    let head = seq![0u8, 7u8, 0x08u8, 0u8, 0x10u8];
    let pkt = chan_open_request(channel, service_id);
    law_varint_reads_what_was_written(head, service_id as u64, Seq::empty());
    assert(pkt.payload =~= head + varint_bytes((service_id as u64) as nat) + Seq::<u8>::empty());
    assert(pkt.payload.take(5) =~= head);
}

} // verus!
