//! AmneziaWG obfuscation settings as plain values: what a server holds,
//! what its clients get, and the text form that `wireguard_conf` writes of
//! an H range.
use crate::ip_text::sub_vec;
use crate::new_server::opt_string_view;
use crate::server::parse_u32_from;
use crate::text::{chars_of, dec_string, find_char, lemma_parse_dec_string, parse_u32_spec};
use vstd::prelude::*;
use wireguard_conf::{AmneziaWG, AmneziaWG2, HRange};

verus! {

/// An H range of AmneziaWG 2.0 (`HRange`), both ends included.
#[derive(Debug, Clone, Copy, PartialEq, Eq, Structural)]
pub struct HSpan {
    pub min: u32,
    pub max: u32,
}

/// AmneziaWG 1.0 settings (`AmneziaWG1`).
#[derive(Debug, Clone, Copy, PartialEq, Eq, Structural)]
pub struct AmneziaV1 {
    pub jc: usize,
    pub jmin: usize,
    pub jmax: usize,
    pub s1: usize,
    pub s2: usize,
    pub h1: usize,
    pub h2: usize,
    pub h3: usize,
    pub h4: usize,
}

/// AmneziaWG 2.0 settings (`AmneziaWG2`), with each H range as an `H`: an
/// `HSpan`, or the text that `HRange`'s `Display` writes.
#[derive(Debug, Clone, PartialEq, Eq)]
pub struct AmneziaV2<H> {
    pub jc: Option<u8>,
    pub jmin: Option<u16>,
    pub jmax: Option<u16>,
    pub s1: Option<u8>,
    pub s2: Option<u8>,
    pub s3: Option<u8>,
    pub s4: Option<u8>,
    pub h1: Option<H>,
    pub h2: Option<H>,
    pub h3: Option<H>,
    pub h4: Option<H>,
    pub i1: Option<String>,
    pub i2: Option<String>,
    pub i3: Option<String>,
    pub i4: Option<String>,
    pub i5: Option<String>,
}

/// AmneziaWG settings of either version (`AmneziaWG`).
#[derive(Debug, Clone, PartialEq, Eq)]
pub enum Amnezia<H> {
    V1(AmneziaV1),
    V2(AmneziaV2<H>),
}

/// AmneziaWG 2.0 settings as plain values.
pub struct AmneziaV2View {
    pub jc: Option<u8>,
    pub jmin: Option<u16>,
    pub jmax: Option<u16>,
    pub s1: Option<u8>,
    pub s2: Option<u8>,
    pub s3: Option<u8>,
    pub s4: Option<u8>,
    pub h1: Option<HSpan>,
    pub h2: Option<HSpan>,
    pub h3: Option<HSpan>,
    pub h4: Option<HSpan>,
    pub i1: Option<Seq<char>>,
    pub i2: Option<Seq<char>>,
    pub i3: Option<Seq<char>>,
    pub i4: Option<Seq<char>>,
    pub i5: Option<Seq<char>>,
}

/// AmneziaWG settings as plain values.
pub enum AmneziaView {
    V1(AmneziaV1),
    V2(AmneziaV2View),
}

pub open spec fn amnezia_view(a: Amnezia<HSpan>) -> AmneziaView {
    match a {
        Amnezia::V1(v) => AmneziaView::V1(v),
        Amnezia::V2(v) => AmneziaView::V2(
            AmneziaV2View {
                jc: v.jc,
                jmin: v.jmin,
                jmax: v.jmax,
                s1: v.s1,
                s2: v.s2,
                s3: v.s3,
                s4: v.s4,
                h1: v.h1,
                h2: v.h2,
                h3: v.h3,
                h4: v.h4,
                i1: opt_string_view(v.i1),
                i2: opt_string_view(v.i2),
                i3: opt_string_view(v.i3),
                i4: opt_string_view(v.i4),
                i5: opt_string_view(v.i5),
            },
        ),
    }
}

pub open spec fn opt_amnezia_view(a: Option<Amnezia<HSpan>>) -> Option<AmneziaView> {
    match a {
        Some(x) => Some(amnezia_view(x)),
        None => None,
    }
}

/// `strip_server_data`: the settings that a client gets of its server's,
/// the server-only I1–I5 of version 2.0 cleared.
pub open spec fn strip_server_data(a: AmneziaView) -> AmneziaView {
    match a {
        AmneziaView::V1(v) => AmneziaView::V1(v),
        AmneziaView::V2(v) => AmneziaView::V2(
            AmneziaV2View { i1: None, i2: None, i3: None, i4: None, i5: None, ..v },
        ),
    }
}

pub open spec fn opt_strip(a: Option<AmneziaView>) -> Option<AmneziaView> {
    match a {
        Some(x) => Some(strip_server_data(x)),
        None => None,
    }
}

/// The text of an H range, as `HRange`'s `Display` writes it: `min-max`.
pub open spec fn hspan_text(h: HSpan) -> Seq<char> {
    dec_string(h.min as nat) + seq!['-'] + dec_string(h.max as nat)
}

pub open spec fn h_text_is(t: Option<String>, h: Option<HSpan>) -> bool {
    match (t, h) {
        (None, None) => true,
        (Some(s), Some(x)) => s@ == hspan_text(x),
        _ => false,
    }
}

/// `t` is the settings `v` with each H range as its text.
pub open spec fn amnezia_text_of(t: Amnezia<String>, v: AmneziaView) -> bool {
    match (t, v) {
        (Amnezia::V1(a), AmneziaView::V1(b)) => a == b,
        (Amnezia::V2(a), AmneziaView::V2(b)) => {
            &&& a.jc == b.jc
            &&& a.jmin == b.jmin
            &&& a.jmax == b.jmax
            &&& a.s1 == b.s1
            &&& a.s2 == b.s2
            &&& a.s3 == b.s3
            &&& a.s4 == b.s4
            &&& h_text_is(a.h1, b.h1)
            &&& h_text_is(a.h2, b.h2)
            &&& h_text_is(a.h3, b.h3)
            &&& h_text_is(a.h4, b.h4)
            &&& opt_string_view(a.i1) == b.i1
            &&& opt_string_view(a.i2) == b.i2
            &&& opt_string_view(a.i3) == b.i3
            &&& opt_string_view(a.i4) == b.i4
            &&& opt_string_view(a.i5) == b.i5
        },
        _ => false,
    }
}

pub open spec fn opt_amnezia_text_of(t: Option<Amnezia<String>>, v: Option<AmneziaView>) -> bool {
    match (t, v) {
        (None, None) => true,
        (Some(a), Some(b)) => amnezia_text_of(a, b),
        _ => false,
    }
}

proof fn lemma_hspan_text(h: HSpan)
    ensures
        find_char(hspan_text(h), '-') == Some(dec_string(h.min as nat).len() as int),
        parse_u32_spec(dec_string(h.min as nat)) == Some(h.min),
        parse_u32_spec(dec_string(h.max as nat)) == Some(h.max),
{
    let a = dec_string(h.min as nat);
    let t = hspan_text(h);
    crate::text::lemma_dec_string_digits(h.min as nat);
    lemma_parse_dec_string(h.min);
    lemma_parse_dec_string(h.max);
    assert forall|j: int| 0 <= j < a.len() implies t[j] != '-' by {
        assert(t[j] == a[j]);
        assert(crate::text::is_digit(a[j]));
    }
    assert(t[a.len() as int] == '-');
    crate::ip_text::lemma_find_char_found(t, '-', a.len() as int);
}

/// The H range of the text `s` that `HRange`'s `Display` writes.
pub fn parse_hspan(s: &String) -> (r: Option<HSpan>)
    ensures
        forall|h: HSpan| s@ == hspan_text(h) ==> r == Some(h),
{
    let v = chars_of(s.as_str());
    let mut k: usize = 0;
    while k < v.len() && v[k] != '-'
        invariant
            k <= v@.len(),
            v@ == s@,
            forall|j: int| 0 <= j < k ==> v@[j] != '-',
        decreases v@.len() - k,
    {
        k = k + 1;
    }
    if k == v.len() {
        proof {
            assert forall|h: HSpan| s@ != hspan_text(h) by {
                if s@ == hspan_text(h) {
                    lemma_hspan_text(h);
                    crate::ip_text::lemma_find_char_range(v@, '-');
                    let d = dec_string(h.min as nat).len() as int;
                    assert(v@[d] == '-');
                }
            }
        }
        return None;
    }
    let head = sub_vec(&v, 0, k);
    let min = parse_u32_from(&head, 0);
    let max = parse_u32_from(&v, k + 1);
    proof {
        assert forall|h: HSpan| s@ == hspan_text(h) implies min == Some(h.min) && max == Some(h.max) by {
            lemma_hspan_text(h);
            let a = dec_string(h.min as nat);
            crate::ip_text::lemma_find_char_found(v@, '-', k as int);
            assert(k == a.len());
            assert(head@.skip(0) =~= a);
            assert(v@.skip(k + 1) =~= dec_string(h.max as nat));
        }
    }
    match (min, max) {
        (Some(a), Some(b)) => Some(HSpan { min: a, max: b }),
        _ => None,
    }
}

fn parse_opt_hspan(s: Option<String>) -> (r: Option<Option<HSpan>>)
    ensures
        forall|h: Option<HSpan>| h_text_is(s, h) ==> r == Some(h),
{
    match s {
        None => Some(None),
        Some(t) => match parse_hspan(&t) {
            Some(h) => Some(Some(h)),
            None => None,
        },
    }
}

/// The settings of their text form, each H range read back from its text.
pub fn amnezia_from_text(t: Amnezia<String>) -> (r: Option<Amnezia<HSpan>>)
    ensures
        forall|v: AmneziaView| amnezia_text_of(t, v) ==> (r matches Some(m) && amnezia_view(m) == v),
{
    match t {
        Amnezia::V1(a) => Some(Amnezia::V1(a)),
        Amnezia::V2(a) => {
            let h1 = parse_opt_hspan(a.h1);
            let h2 = parse_opt_hspan(a.h2);
            let h3 = parse_opt_hspan(a.h3);
            let h4 = parse_opt_hspan(a.h4);
            match (h1, h2, h3, h4) {
                (Some(h1), Some(h2), Some(h3), Some(h4)) => Some(
                    Amnezia::V2(
                        AmneziaV2 {
                            jc: a.jc,
                            jmin: a.jmin,
                            jmax: a.jmax,
                            s1: a.s1,
                            s2: a.s2,
                            s3: a.s3,
                            s4: a.s4,
                            h1,
                            h2,
                            h3,
                            h4,
                            i1: a.i1,
                            i2: a.i2,
                            i3: a.i3,
                            i4: a.i4,
                            i5: a.i5,
                        },
                    ),
                ),
                _ => None,
            }
        },
    }
}

/// `amnezia_from_text` of optional settings.
pub fn opt_amnezia_from_text(t: Option<Amnezia<String>>) -> (r: Option<Option<Amnezia<HSpan>>>)
    ensures
        forall|v: Option<AmneziaView>|
            opt_amnezia_text_of(t, v) ==> (r matches Some(m) && opt_amnezia_view(m) == v),
{
    match t {
        None => Some(None),
        Some(a) => match amnezia_from_text(a) {
            Some(m) => Some(Some(m)),
            None => None,
        },
    }
}

/// The settings as `wireguard_conf::AmneziaWG`, one field for one, each H
/// range made by `HRange::new`.
#[verifier::external_body]
pub(crate) fn wg_amnezia(a: &Amnezia<HSpan>) -> AmneziaWG {
    match a {
        Amnezia::V1(v) => AmneziaWG::V1(wireguard_conf::AmneziaWG1 {
            jc: v.jc, jmin: v.jmin, jmax: v.jmax, s1: v.s1, s2: v.s2,
            h1: v.h1, h2: v.h2, h3: v.h3, h4: v.h4,
        }),
        Amnezia::V2(v) => AmneziaWG::V2(wg_amnezia2(v)),
    }
}

/// AmneziaWG 2.0 settings as `wireguard_conf::AmneziaWG2`, one field for
/// one, each H range made by `HRange::new`.
#[verifier::external_body]
fn wg_amnezia2(v: &AmneziaV2<HSpan>) -> AmneziaWG2 {
    AmneziaWG2 {
        jc: v.jc, jmin: v.jmin, jmax: v.jmax, s1: v.s1, s2: v.s2, s3: v.s3, s4: v.s4,
        h1: v.h1.map(|h| HRange::new(h.min, h.max)),
        h2: v.h2.map(|h| HRange::new(h.min, h.max)),
        h3: v.h3.map(|h| HRange::new(h.min, h.max)),
        h4: v.h4.map(|h| HRange::new(h.min, h.max)),
        i1: v.i1.clone(), i2: v.i2.clone(), i3: v.i3.clone(), i4: v.i4.clone(), i5: v.i5.clone(),
    }
}

/// `wireguard_conf::AmneziaWG` as plain values, one field for one, each H
/// range as the text of its `Display` (its ends are private). Stated: that
/// text is the `min-max` that `Display` writes, so it reads back as an
/// `HSpan`; the values themselves are those of the opaque argument.
#[verifier::external_body]
pub(crate) fn amnezia_text(a: &AmneziaWG) -> (r: Amnezia<String>)
    ensures
        exists|v: AmneziaView| amnezia_text_of(r, v),
{
    match a {
        AmneziaWG::V1(v) => Amnezia::V1(AmneziaV1 {
            jc: v.jc, jmin: v.jmin, jmax: v.jmax, s1: v.s1, s2: v.s2,
            h1: v.h1, h2: v.h2, h3: v.h3, h4: v.h4,
        }),
        AmneziaWG::V2(v) => Amnezia::V2(amnezia2_text(v)),
    }
}

/// `wireguard_conf::AmneziaWG2` as plain values, one field for one, each H
/// range as the text of its `Display`.
#[verifier::external_body]
fn amnezia2_text(v: &AmneziaWG2) -> AmneziaV2<String> {
    AmneziaV2 {
        jc: v.jc, jmin: v.jmin, jmax: v.jmax, s1: v.s1, s2: v.s2, s3: v.s3, s4: v.s4,
        h1: v.h1.as_ref().map(|h| h.to_string()),
        h2: v.h2.as_ref().map(|h| h.to_string()),
        h3: v.h3.as_ref().map(|h| h.to_string()),
        h4: v.h4.as_ref().map(|h| h.to_string()),
        i1: v.i1.clone(), i2: v.i2.clone(), i3: v.i3.clone(), i4: v.i4.clone(), i5: v.i5.clone(),
    }
}

/// `AmneziaWG::random_v2()` of `wireguard_conf`: random AmneziaWG 2.0
/// settings, as plain values with the H ranges as text. Of the values only
/// this is stated: each H range's text is the `min-max` that `HRange`'s
/// `Display` writes; the values are random.
#[verifier::external_body]
pub(crate) fn random_amnezia() -> (r: Amnezia<String>)
    ensures
        exists|v: AmneziaView| amnezia_text_of(r, v),
{
    amnezia_text(&AmneziaWG::random_v2())
}

/// Settings of `wireguard_conf` as plain values, each H range read back
/// from the text of its `Display`.
pub fn amnezia_model(a: &AmneziaWG) -> Amnezia<HSpan> {
    let t = amnezia_text(a);
    let ghost v = choose|v: AmneziaView| amnezia_text_of(t, v);
    match amnezia_from_text(t) {
        Some(m) => m,
        None => {
            proof {
                assert(amnezia_text_of(t, v));
            }
            vstd::pervasive::unreached()
        },
    }
}

} // verus!
