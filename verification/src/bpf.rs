use crate::packet::FrameKind;
use vstd::prelude::*;

verus! {

/// The size of a BPF record header (`struct bpf_hdr` with its padding).
pub const BPF_HDR_LEN: usize = 20;

/// `x` rounded up to a multiple of four.
pub fn bpf_wordalign(x: usize) -> (r: usize)
    requires
        x + 3 <= usize::MAX,
    ensures
        r % 4 == 0,
        x <= r < x + 4,
{
    (x + 3) / 4 * 4
}

/// A little-endian 32-bit value at `at`.
pub open spec fn le32(b: Seq<u8>, at: int) -> nat {
    b[at] as nat + b[at + 1] as nat * 0x100 + b[at + 2] as nat * 0x10000 + b[at + 3] as nat
        * 0x1000000
}

/// A little-endian 16-bit value at `at`.
pub open spec fn le16(b: Seq<u8>, at: int) -> nat {
    b[at] as nat + b[at + 1] as nat * 0x100
}

/// Where the next captured frame lies in a BPF read buffer holding `len` bytes, with the
/// next record at `pos`: its start, its captured length and the position of the record
/// after it. `None` when no complete record is left (the buffer is then used up).
pub open spec fn spec_next_record(buf: Seq<u8>, pos: nat, len: nat) -> Option<(nat, nat, nat)> {
    if pos < len && len - pos >= BPF_HDR_LEN {
        let cap = le32(buf, pos as int + 8);
        let hdr = le16(buf, pos as int + 16);
        if pos + hdr + cap <= len {
            let total = hdr + cap;
            let aligned = if total % 4 == 0 {
                total
            } else {
                (total + 4 - total % 4) as nat
            };
            Some((pos + hdr, cap, pos + aligned))
        } else {
            None
        }
    } else {
        None
    }
}

/// Reads the record header at `pos` of a BPF read buffer (`bh_caplen` at offset 8,
/// `bh_hdrlen` at offset 16).
pub fn next_record(buf: &[u8], pos: usize, len: usize) -> (r: Option<(usize, usize, usize)>)
    requires
        len <= buf@.len(),
        len + 3 <= usize::MAX,
    ensures
        match (r, spec_next_record(buf@, pos as nat, len as nat)) {
            (Some(a), Some(b)) => a.0 == b.0 && a.1 == b.1 && a.2 == b.2,
            (None, None) => true,
            _ => false,
        },
{
    if pos >= len || len - pos < BPF_HDR_LEN {
        return None;
    }
    let cap = buf[pos + 8] as usize + buf[pos + 9] as usize * 0x100 + buf[pos + 10] as usize
        * 0x10000 + buf[pos + 11] as usize * 0x1000000;
    let hdr = buf[pos + 16] as usize + buf[pos + 17] as usize * 0x100;
    if hdr > len - pos || cap > len - pos - hdr {
        return None;
    }
    let total = hdr + cap;
    let aligned = bpf_wordalign(total);
    assert(aligned == (if total % 4 == 0 { total as int } else { total + 4 - total % 4 }));
    Some((pos + hdr, cap, pos + aligned))
}

/// One classic BPF instruction.
#[derive(Debug, Clone, Copy, PartialEq, Eq, Structural)]
pub struct BpfInsn {
    pub code: u16,
    pub jt: u8,
    pub jf: u8,
    pub k: u32,
}

pub open spec fn insn(code: u16, jt: u8, jf: u8, k: u32) -> BpfInsn {
    BpfInsn { code, jt, jf, k }
}

/// The filter that lets only TCP through: on Ethernet, IPv4 with protocol 6, or IPv6
/// with next header 6 (directly or after a fragment header); other framings pass
/// everything.
pub open spec fn spec_tcp_filter(kind: FrameKind) -> Seq<BpfInsn> {
    match kind {
        FrameKind::Ethernet => seq![
            insn(0x28, 0, 0, 0x0c),
            insn(0x15, 0, 2, 0x800),
            insn(0x30, 0, 0, 0x17),
            insn(0x15, 6, 7, 0x06),
            insn(0x15, 0, 6, 0x86dd),
            insn(0x30, 0, 0, 0x14),
            insn(0x15, 3, 0, 0x06),
            insn(0x15, 0, 3, 0x2c),
            insn(0x30, 0, 0, 0x36),
            insn(0x15, 0, 1, 0x06),
            insn(0x06, 0, 0, 0x40000),
            insn(0x06, 0, 0, 0),
        ],
        _ => seq![insn(0x06, 0, 0, 0x40000)],
    }
}

/// The capture filter for a framing: on Ethernet it keeps the frames that carry TCP over
/// IPv4 or IPv6.
pub fn tcp_filter(kind: FrameKind) -> (r: Vec<BpfInsn>)
    ensures
        r@ == spec_tcp_filter(kind),
{
    match kind {
        FrameKind::Ethernet => {
            let r = vec![
                BpfInsn { code: 0x28, jt: 0, jf: 0, k: 0x0c },
                BpfInsn { code: 0x15, jt: 0, jf: 2, k: 0x800 },
                BpfInsn { code: 0x30, jt: 0, jf: 0, k: 0x17 },
                BpfInsn { code: 0x15, jt: 6, jf: 7, k: 0x06 },
                BpfInsn { code: 0x15, jt: 0, jf: 6, k: 0x86dd },
                BpfInsn { code: 0x30, jt: 0, jf: 0, k: 0x14 },
                BpfInsn { code: 0x15, jt: 3, jf: 0, k: 0x06 },
                BpfInsn { code: 0x15, jt: 0, jf: 3, k: 0x2c },
                BpfInsn { code: 0x30, jt: 0, jf: 0, k: 0x36 },
                BpfInsn { code: 0x15, jt: 0, jf: 1, k: 0x06 },
                BpfInsn { code: 0x06, jt: 0, jf: 0, k: 0x40000 },
                BpfInsn { code: 0x06, jt: 0, jf: 0, k: 0 },
            ];
            assert(r@ =~= spec_tcp_filter(kind));
            r
        },
        _ => {
            let r = vec![BpfInsn { code: 0x06, jt: 0, jf: 0, k: 0x40000 }];
            assert(r@ =~= spec_tcp_filter(kind));
            r
        },
    }
}

/// What a classic BPF program of loads (`ldh`, `ldb` absolute), `jeq` and `ret` returns
/// for a packet: the number of bytes to keep, 0 to drop. A load beyond the packet drops
/// it, as does running out of steps.
pub open spec fn bpf_run(prog: Seq<BpfInsn>, pkt: Seq<u8>, pc: nat, a: nat, steps: nat) -> nat
    decreases steps,
{
    if steps == 0 || pc >= prog.len() {
        0
    } else {
        let i = prog[pc as int];
        if i.code == 0x28 {
            if i.k as nat + 2 <= pkt.len() {
                bpf_run(
                    prog,
                    pkt,
                    pc + 1,
                    pkt[i.k as int] as nat * 256 + pkt[i.k + 1] as nat,
                    (steps - 1) as nat,
                )
            } else {
                0
            }
        } else if i.code == 0x30 {
            if (i.k as nat) < pkt.len() {
                bpf_run(prog, pkt, pc + 1, pkt[i.k as int] as nat, (steps - 1) as nat)
            } else {
                0
            }
        } else if i.code == 0x15 {
            let next = if a == i.k as nat {
                pc + 1 + i.jt as nat
            } else {
                pc + 1 + i.jf as nat
            };
            bpf_run(prog, pkt, next, a, (steps - 1) as nat)
        } else if i.code == 0x06 {
            i.k as nat
        } else {
            0
        }
    }
}

/// An Ethernet frame that carries TCP: IPv4 with protocol 6, or IPv6 whose next header is
/// 6, directly or after a fragment header.
pub open spec fn ethernet_tcp(pkt: Seq<u8>) -> bool {
    pkt.len() >= 14 && ((pkt[12] as nat * 256 + pkt[13] as nat == 0x800 && pkt.len() >= 24
        && pkt[23] == 6) || (pkt[12] as nat * 256 + pkt[13] as nat == 0x86dd && pkt.len() >= 21
        && (pkt[20] == 6 || (pkt[20] == 0x2c && pkt.len() >= 55 && pkt[54] == 6))))
}

/// The capture filter keeps exactly the Ethernet frames that carry TCP (whole, up to
/// 256 KiB), and everything on other framings.
pub proof fn lemma_tcp_filter_keeps_tcp(kind: FrameKind, pkt: Seq<u8>)
    ensures
        kind == FrameKind::Ethernet ==> (bpf_run(spec_tcp_filter(kind), pkt, 0, 0, 12) != 0
            <==> ethernet_tcp(pkt)),
        kind == FrameKind::Ethernet && ethernet_tcp(pkt) ==> bpf_run(
            spec_tcp_filter(kind),
            pkt,
            0,
            0,
            12,
        ) == 0x40000,
        kind != FrameKind::Ethernet ==> bpf_run(spec_tcp_filter(kind), pkt, 0, 0, 12) == 0x40000,
{
    reveal_with_fuel(bpf_run, 13);
}

} // verus!
