//! What holds of the devices that a filter chooses: they are the ones that
//! match, and they come ordered by name.

use crate::ports::{
    bytes_le, insert_place, matching_by_name, port_le, spec_usb_port_matches, PortFilter,
    SerialPortInfo,
};
use vstd::prelude::*;
use vstd::seq_lib::to_multiset_insert;

verus! {

/// Of two byte strings, one is not after the other.
pub proof fn lemma_bytes_le_total(a: Seq<u8>, b: Seq<u8>)
    ensures
        bytes_le(a, b) || bytes_le(b, a),
    decreases a.len(),
{
    if a.len() > 0 && b.len() > 0 && a[0] == b[0] {
        lemma_bytes_le_total(a.drop_first(), b.drop_first());
    }
}

/// The order of byte strings is transitive.
pub proof fn lemma_bytes_le_transitive(a: Seq<u8>, b: Seq<u8>, c: Seq<u8>)
    requires
        bytes_le(a, b),
        bytes_le(b, c),
    ensures
        bytes_le(a, c),
    decreases a.len(),
{
    if a.len() > 0 && b.len() > 0 && c.len() > 0 && a[0] == b[0] && b[0] == c[0] {
        lemma_bytes_le_transitive(a.drop_first(), b.drop_first(), c.drop_first());
    }
}

/// True when no device comes before one that is not after it by name.
pub open spec fn sorted_by_name(ports: Seq<SerialPortInfo>) -> bool {
    forall|i: int, j: int| 0 <= i <= j < ports.len() ==> port_le(ports[i], ports[j])
}

/// The devices that the filter accepts, in the order in which they are given.
pub open spec fn accepted(ports: Seq<SerialPortInfo>, filter: PortFilter) -> Seq<SerialPortInfo> {
    ports.filter(|port: SerialPortInfo| spec_usb_port_matches(port, filter))
}

/// In devices ordered by name, the place of a new device has all that are
/// not after it in front and all that are after it behind.
proof fn lemma_insert_place(sorted: Seq<SerialPortInfo>, port: SerialPortInfo)
    requires
        sorted_by_name(sorted),
    ensures
        0 <= insert_place(sorted, port) <= sorted.len(),
        forall|i: int| 0 <= i < insert_place(sorted, port) ==> port_le(#[trigger] sorted[i], port),
        forall|i: int|
            insert_place(sorted, port) <= i < sorted.len() ==> port_le(port, #[trigger] sorted[i]),
    decreases sorted.len(),
{
    if sorted.len() == 0 {
    } else if port_le(sorted.last(), port) {
        assert forall|i: int| 0 <= i < sorted.len() implies port_le(#[trigger] sorted[i], port) by {
            assert(port_le(sorted[i], sorted.last()));
            lemma_bytes_le_transitive(
                vstd::utf8::encode_utf8(sorted[i].port_name@),
                vstd::utf8::encode_utf8(sorted.last().port_name@),
                vstd::utf8::encode_utf8(port.port_name@),
            );
        }
    } else {
        let front = sorted.drop_last();
        assert(sorted_by_name(front)) by {
            assert forall|i: int, j: int| 0 <= i <= j < front.len() implies port_le(
                front[i],
                front[j],
            ) by {
                assert(port_le(sorted[i], sorted[j]));
            }
        }
        lemma_insert_place(front, port);
        let place = insert_place(front, port);
        assert forall|i: int| place <= i < sorted.len() implies port_le(
            port,
            #[trigger] sorted[i],
        ) by {
            if i < front.len() {
                assert(sorted[i] == front[i]);
            } else {
                lemma_bytes_le_total(
                    vstd::utf8::encode_utf8(sorted.last().port_name@),
                    vstd::utf8::encode_utf8(port.port_name@),
                );
            }
        }
        assert forall|i: int| 0 <= i < place implies port_le(#[trigger] sorted[i], port) by {
            assert(sorted[i] == front[i]);
        }
    }
}

/// The devices that a filter finds come ordered by name.
pub proof fn lemma_matching_sorted(ports: Seq<SerialPortInfo>, filter: PortFilter)
    ensures
        sorted_by_name(matching_by_name(ports, filter)),
    decreases ports.len(),
{
    if ports.len() > 0 {
        let before = matching_by_name(ports.drop_last(), filter);
        lemma_matching_sorted(ports.drop_last(), filter);
        if spec_usb_port_matches(ports.last(), filter) {
            let port = ports.last();
            let place = insert_place(before, port);
            lemma_insert_place(before, port);
            let after = before.insert(place, port);
            assert forall|i: int, j: int| 0 <= i <= j < after.len() implies port_le(
                after[i],
                after[j],
            ) by {
                lemma_bytes_le_total(
                    vstd::utf8::encode_utf8(port.port_name@),
                    vstd::utf8::encode_utf8(port.port_name@),
                );
                if j < place {
                    assert(after[i] == before[i] && after[j] == before[j]);
                } else if i < place && j == place {
                    assert(after[i] == before[i]);
                } else if i < place {
                    assert(after[i] == before[i] && after[j] == before[j - 1]);
                    assert(port_le(before[i], before[j - 1]));
                } else if i == place && j == place {
                } else if i == place {
                    assert(after[j] == before[j - 1]);
                } else {
                    assert(after[i] == before[i - 1] && after[j] == before[j - 1]);
                    assert(port_le(before[i - 1], before[j - 1]));
                }
            }
        }
    }
}

/// The devices that a filter finds are exactly those that it accepts, each
/// as often as it is given.
pub proof fn lemma_matching_same_devices(ports: Seq<SerialPortInfo>, filter: PortFilter)
    ensures
        matching_by_name(ports, filter).to_multiset() == accepted(ports, filter).to_multiset(),
        matching_by_name(ports, filter).len() == accepted(ports, filter).len(),
    decreases ports.len(),
{
    reveal(Seq::filter);
    if ports.len() == 0 {
        assert(accepted(ports, filter) =~= Seq::<SerialPortInfo>::empty());
    } else {
        let before = matching_by_name(ports.drop_last(), filter);
        let kept = accepted(ports.drop_last(), filter);
        lemma_matching_same_devices(ports.drop_last(), filter);
        if spec_usb_port_matches(ports.last(), filter) {
            let port = ports.last();
            let place = insert_place(before, port);
            lemma_insert_place_in_range(before, port);
            to_multiset_insert(before, place, port);
            assert(accepted(ports, filter) == kept.push(port));
            assert(kept.push(port) =~= kept.insert(kept.len() as int, port));
            to_multiset_insert(kept, kept.len() as int, port);
        } else {
            assert(accepted(ports, filter) == kept);
        }
    }
}

/// The place of a new device lies within the devices.
proof fn lemma_insert_place_in_range(sorted: Seq<SerialPortInfo>, port: SerialPortInfo)
    ensures
        0 <= insert_place(sorted, port) <= sorted.len(),
    decreases sorted.len(),
{
    if sorted.len() > 0 && !port_le(sorted.last(), port) {
        lemma_insert_place_in_range(sorted.drop_last(), port);
    }
}

} // verus!
