//! Bridge descriptors as the directory hands them out, the policy filter,
//! and the extraction of the exit's end-to-end multiplex public key.

use vstd::prelude::*;
use crate::addr::SockAddr;
use vstd::slice::slice_to_vec;

verus! {

/// The wire-visible protocol tag of obfuscated-UDP bridges.
pub const UDP_TAG: &'static str = "sosistab2-obfsudp";

/// The wire-visible protocol tag of obfuscated-TLS bridges.
pub const TLS_TAG: &'static str = "sosistab2-obfstls";

/// The allocation group handed to every user, blocked under bridges-only
/// policy.
pub const DIRECT_GROUP: &'static str = "direct";

/// What a bridge descriptor says, as mathematical values.
pub struct BridgeView {
    pub endpoint: SockAddr,
    pub protocol: Seq<char>,
    pub key: Seq<u8>,
    pub alloc_group: Seq<char>,
}

/// One bridge relay as the directory describes it: where to dial, over which
/// protocol, with which opaque key material, and from which allocation group
/// it was handed out.
#[derive(Debug)]
pub struct BridgeDescriptor {
    pub endpoint: SockAddr,
    pub protocol: String,
    pub sosistab_key: Vec<u8>,
    pub alloc_group: String,
}

impl View for BridgeDescriptor {
    type V = BridgeView;

    open spec fn view(&self) -> BridgeView {
        BridgeView {
            endpoint: self.endpoint,
            protocol: self.protocol@,
            key: self.sosistab_key@,
            alloc_group: self.alloc_group@,
        }
    }
}

impl Clone for BridgeDescriptor {
    fn clone(&self) -> (r: Self)
        ensures
            r@ == self@,
    {
        let r = BridgeDescriptor {
            endpoint: self.endpoint,
            protocol: self.protocol.clone(),
            sosistab_key: self.sosistab_key.clone(),
            alloc_group: self.alloc_group.clone(),
        };
        proof {
            assert(r.sosistab_key@ =~= self.sosistab_key@);
        }
        r
    }
}

/// The exit record of the directory; the core reads only the hostname.
#[derive(Debug)]
pub struct ExitRecord {
    pub hostname: String,
}

impl Clone for ExitRecord {
    fn clone(&self) -> (r: Self)
        ensures
            r.hostname@ == self.hostname@,
    {
        ExitRecord { hostname: self.hostname.clone() }
    }
}

/// The descriptor names the obfuscated-UDP protocol and its key blob is the
/// well-formed pair encoding: 32 bytes of transport key, then 32 bytes of
/// multiplex key.
pub open spec fn wf_udp_bridge(b: BridgeView) -> bool {
    b.protocol == UDP_TAG@ && b.key.len() == 64
}

/// The transport public key inside a well-formed UDP key blob.
pub open spec fn blob_transport_key(key: Seq<u8>) -> Seq<u8> {
    key.subrange(0, 32)
}

/// The end-to-end multiplex public key inside a well-formed UDP key blob.
pub open spec fn blob_mux_key(key: Seq<u8>) -> Seq<u8> {
    key.subrange(32, 64)
}

/// A bridge survives the policy filter: under bridges-only policy the
/// `direct` allocation group is dropped.
pub open spec fn eligible(b: BridgeView, use_bridges: bool) -> bool {
    !(use_bridges && b.alloc_group == DIRECT_GROUP@)
}

/// What a sequence of descriptors says, element by element.
pub open spec fn views_of(bs: Seq<BridgeDescriptor>) -> Seq<BridgeView> {
    bs.map_values(|b: BridgeDescriptor| b@)
}

/// The bridges surviving the policy filter, in order.
pub open spec fn spec_filter_bridges(bs: Seq<BridgeView>, use_bridges: bool) -> Seq<BridgeView>
    decreases bs.len(),
{
    if bs.len() == 0 {
        Seq::empty()
    } else {
        let rest = spec_filter_bridges(bs.drop_last(), use_bridges);
        if eligible(bs.last(), use_bridges) {
            rest.push(bs.last())
        } else {
            rest
        }
    }
}

/// The multiplex public key of the first well-formed UDP bridge, if any.
pub open spec fn spec_exit_key(bs: Seq<BridgeView>) -> Option<Seq<u8>>
    decreases bs.len(),
{
    if bs.len() == 0 {
        None
    } else if wf_udp_bridge(bs[0]) {
        Some(blob_mux_key(bs[0].key))
    } else {
        spec_exit_key(bs.drop_first())
    }
}

/// Equality of a string against a literal tag.
pub fn string_is(s: &String, tag: &str) -> (r: bool)
    ensures
        r == (s@ == tag@),
{
    let t = tag.to_owned();
    s.eq(&t)
}

/// Splits a well-formed UDP key blob into its transport public key and its
/// multiplex public key; refuses any other length.
pub fn decode_udp_blob(key: &[u8]) -> (r: Option<(Vec<u8>, Vec<u8>)>)
    ensures
        match r {
            Some(p) => key@.len() == 64 && p.0@ == blob_transport_key(key@) && p.1@
                == blob_mux_key(key@),
            None => key@.len() != 64,
        },
{
    if key.len() != 64 {
        return None;
    }
    let transport = slice_to_vec(&key[0..32]);
    let mux = slice_to_vec(&key[32..64]);
    Some((transport, mux))
}

/// Applies the policy filter: under bridges-only policy, every `direct`
/// bridge is dropped; everything else is kept, in order.
pub fn filter_bridges(bridges: &Vec<BridgeDescriptor>, use_bridges: bool) -> (r: Vec<
    BridgeDescriptor,
>)
    ensures
        views_of(r@) == spec_filter_bridges(views_of(bridges@), use_bridges),
        forall|i: int| 0 <= i < r@.len() ==> eligible(#[trigger] r@[i]@, use_bridges),
{
    let mut r: Vec<BridgeDescriptor> = Vec::new();
    let n = bridges.len();
    let mut i: usize = 0;
    while i < n
        invariant
            0 <= i <= n,
            n == bridges@.len(),
            views_of(r@) == spec_filter_bridges(views_of(bridges@.subrange(0, i as int)),
                use_bridges),
            forall|j: int| 0 <= j < r@.len() ==> eligible(#[trigger] r@[j]@, use_bridges),
        decreases n - i,
    {
        let b = &bridges[i];
        let keep = if use_bridges {
            !string_is(&b.alloc_group, DIRECT_GROUP)
        } else {
            true
        };
        proof {
            let pre = views_of(bridges@.subrange(0, i as int));
            let cur = views_of(bridges@.subrange(0, i as int + 1));
            assert(cur.drop_last() =~= pre);
            assert(cur.last() == bridges@[i as int]@);
        }
        if keep {
            let old_r = Ghost(r@);
            r.push(b.clone());
            proof {
                let cur = views_of(bridges@.subrange(0, i as int + 1));
                assert(eligible(bridges@[i as int]@, use_bridges));
                assert(views_of(r@) =~= views_of(old_r@).push(bridges@[i as int]@));
                assert(views_of(r@) =~= spec_filter_bridges(cur, use_bridges));
            }
        } else {
            proof {
                let cur = views_of(bridges@.subrange(0, i as int + 1));
                assert(views_of(r@) =~= spec_filter_bridges(cur, use_bridges));
            }
        }
        i += 1;
    }
    proof {
        assert(bridges@.subrange(0, n as int) =~= bridges@);
    }
    r
}

/// Scans the bridge list for the first well-formed obfuscated-UDP
/// descriptor and returns the end-to-end multiplex public key from its key
/// blob; `None` exactly when no such descriptor exists.
pub fn extract_exit_key(bridges: &Vec<BridgeDescriptor>) -> (r: Option<Vec<u8>>)
    ensures
        match r {
            Some(k) => spec_exit_key(views_of(bridges@)) == Some(k@) && k@.len() == 32,
            None => spec_exit_key(views_of(bridges@)) is None,
        },
{
    let n = bridges.len();
    let mut i: usize = 0;
    proof {
        assert(views_of(bridges@).skip(0) =~= views_of(bridges@));
    }
    while i < n
        invariant
            0 <= i <= n,
            n == bridges@.len(),
            spec_exit_key(views_of(bridges@)) == spec_exit_key(
                views_of(bridges@).skip(i as int),
            ),
        decreases n - i,
    {
        let b = &bridges[i];
        let is_udp = string_is(&b.protocol, UDP_TAG);
        proof {
            let vs = views_of(bridges@);
            let suf = vs.skip(i as int);
            assert(suf[0] == bridges@[i as int]@);
            assert(suf.drop_first() =~= vs.skip(i as int + 1));
        }
        if is_udp && b.sosistab_key.len() == 64 {
            let sl = b.sosistab_key.as_slice();
            let mux = slice_to_vec(&sl[32..64]);
            proof {
                let vs = views_of(bridges@);
                let suf = vs.skip(i as int);
                assert(wf_udp_bridge(suf[0]));
                assert(spec_exit_key(suf) == Some(blob_mux_key(bridges@[i as int]@.key)));
            }
            return Some(mux);
        }
        proof {
            let vs = views_of(bridges@);
            let suf = vs.skip(i as int);
            assert(!wf_udp_bridge(suf[0]));
        }
        i += 1;
    }
    proof {
        assert(views_of(bridges@).skip(n as int).len() == 0);
    }
    None
}

/// Key agreement: when every well-formed obfuscated-UDP bridge of the list
/// carries the same multiplex public key and at least one such bridge
/// exists, the extracted key is that shared key — the scan order never
/// matters.
pub proof fn lemma_key_agreement(bs: Seq<BridgeView>, m: Seq<u8>)
    requires
        exists|i: int| 0 <= i < bs.len() && wf_udp_bridge(#[trigger] bs[i]),
        forall|i: int|
            0 <= i < bs.len() && wf_udp_bridge(#[trigger] bs[i]) ==> blob_mux_key(bs[i].key)
                == m,
    ensures
        spec_exit_key(bs) == Some(m),
    decreases bs.len(),
{
    let w = choose|i: int| 0 <= i < bs.len() && wf_udp_bridge(#[trigger] bs[i]);
    if wf_udp_bridge(bs[0]) {
        assert(blob_mux_key(bs[0].key) == m);
    } else {
        let t = bs.drop_first();
        assert(w >= 1);
        assert(t[w - 1] == bs[w]);
        assert(0 <= w - 1 < t.len() && wf_udp_bridge(t[w - 1]));
        assert(forall|i: int|
            0 <= i < t.len() && wf_udp_bridge(#[trigger] t[i]) ==> blob_mux_key(t[i].key)
                == m) by {
            assert(forall|i: int| 0 <= i < t.len() ==> t[i] == bs[i + 1]);
        }
        lemma_key_agreement(t, m);
    }
}

/// The policy filter keeps exactly the eligible bridges: everything it
/// returns is eligible and stood in the list, and every eligible bridge of
/// the list is returned.
pub proof fn lemma_filter_exact(bs: Seq<BridgeView>, use_bridges: bool)
    ensures
        forall|j: int|
            0 <= j < spec_filter_bridges(bs, use_bridges).len() ==> eligible(
                #[trigger] spec_filter_bridges(bs, use_bridges)[j],
                use_bridges,
            ) && bs.contains(spec_filter_bridges(bs, use_bridges)[j]),
        forall|i: int|
            0 <= i < bs.len() && eligible(#[trigger] bs[i], use_bridges)
                ==> spec_filter_bridges(bs, use_bridges).contains(bs[i]),
    decreases bs.len(),
{
    if bs.len() == 0 {
    } else {
        let p = bs.drop_last();
        let x = bs.last();
        lemma_filter_exact(p, use_bridges);
        let fp = spec_filter_bridges(p, use_bridges);
        let f = spec_filter_bridges(bs, use_bridges);
        assert(forall|k: int| 0 <= k < p.len() ==> p[k] == bs[k]);
        assert forall|y: BridgeView| p.contains(y) implies bs.contains(y) by {
            let k = choose|k: int| 0 <= k < p.len() && p[k] == y;
            assert(bs[k] == y);
        }
        if eligible(x, use_bridges) {
            assert(f == fp.push(x));
            assert forall|j: int| 0 <= j < f.len() implies eligible(f[j], use_bridges)
                && bs.contains(f[j]) by {
                if j < fp.len() {
                    assert(f[j] == fp[j]);
                    assert(p.contains(fp[j]));
                } else {
                    assert(f[j] == x);
                    assert(bs[bs.len() - 1] == x);
                }
            }
            assert forall|i: int| 0 <= i < bs.len() && eligible(bs[i], use_bridges) implies f
                .contains(bs[i]) by {
                if i < bs.len() - 1 {
                    assert(p[i] == bs[i]);
                    assert(fp.contains(bs[i]));
                    let k = choose|k: int| 0 <= k < fp.len() && fp[k] == bs[i];
                    assert(f[k] == bs[i]);
                } else {
                    assert(f[f.len() - 1] == x);
                }
            }
        } else {
            assert(f == fp);
            assert forall|i: int| 0 <= i < bs.len() && eligible(bs[i], use_bridges) implies f
                .contains(bs[i]) by {
                if i < bs.len() - 1 {
                    assert(p[i] == bs[i]);
                    assert(fp.contains(bs[i]));
                } else {
                    assert(bs[i] == x);
                }
            }
        }
    }
}

} // verus!

