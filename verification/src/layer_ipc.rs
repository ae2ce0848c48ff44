//! Compositor side of the layer-shell control requests: describing layer
//! surfaces to clients and resolving the handles clients send back.

use vstd::prelude::*;
use crate::layer_cli::{decimal_value, parse_u64_spec, all_decimal_digits, is_decimal_digit};
use crate::layer_window::Layer;
use crate::layer_cli::LayerRequest;

verus! {

// ---------------------------------------------------------------------------
// Types sent to clients
// ---------------------------------------------------------------------------

#[derive(Clone, Copy, Debug, PartialEq, Eq, Structural)]
pub enum LayerShellKind {
    Background,
    Bottom,
    Top,
    Overlay,
}

#[derive(Clone, Copy, Debug, PartialEq, Eq, Structural)]
pub enum LayerAnchorEdge {
    Top,
    Bottom,
    Left,
    Right,
}

#[derive(Clone, Copy, Debug, PartialEq, Eq, Structural)]
pub enum LayerKeyboardInteractivity {
    /// Never takes keyboard focus (`none` in the protocol).
    NoKeyboard,
    OnDemand,
    Exclusive,
}

/// A layer surface as a client sees it.
#[derive(Debug)]
pub struct LayerInfo {
    pub id: u64,
    pub namespace: String,
    pub output: Option<String>,
    pub layer: LayerShellKind,
    pub anchor: Vec<LayerAnchorEdge>,
    pub exclusive_zone: Option<i32>,
    pub keyboard_interactivity: LayerKeyboardInteractivity,
    pub keyboard_focus: bool,
    pub committed: bool,
    pub promoted_node: Option<u64>,
    pub pos_x: i32,
    pub pos_y: i32,
    pub width: i32,
    pub height: i32,
}

/// Errors a request can be answered with.
#[derive(Debug)]
pub enum ApiError {
    NotFound(String),
}

// ---------------------------------------------------------------------------
// Layer-shell state as the compositor keeps it
// ---------------------------------------------------------------------------

/// Exclusive-zone request of a layer surface.
#[derive(Clone, Copy, Debug, PartialEq, Eq, Structural)]
pub enum ExclusiveZone {
    Exclusive(u32),
    Neutral,
    DontCare,
}

#[derive(Clone, Copy, Debug, PartialEq, Eq, Structural)]
pub enum KeyboardInteractivity {
    /// Never takes keyboard focus (`none` in the protocol).
    NoKeyboard,
    OnDemand,
    Exclusive,
}

/// Anchor edges as the layer-shell protocol encodes them.
pub const ANCHOR_TOP: u32 = 1;
pub const ANCHOR_BOTTOM: u32 = 2;
pub const ANCHOR_LEFT: u32 = 4;
pub const ANCHOR_RIGHT: u32 = 8;

/// What the compositor knows of one layer surface on an output.
#[derive(Debug)]
pub struct LayerSurfaceSummary {
    pub handle: u64,
    pub namespace: String,
    pub layer: Layer,
    /// Anchor bit set (`ANCHOR_*`).
    pub anchor: u32,
    pub exclusive_zone: ExclusiveZone,
    pub keyboard_interactivity: KeyboardInteractivity,
    pub keyboard_focus: bool,
    pub committed: bool,
    pub promoted_node: Option<u64>,
    pub origin: (i32, i32),
    pub size: (i32, i32),
}

pub open spec fn has_anchor(anchor: u32, bit: u32) -> bool {
    anchor & bit != 0
}

/// The edges of an anchor set, in the order top, bottom, left, right.
pub open spec fn anchor_edges_spec(anchor: u32) -> Seq<LayerAnchorEdge> {
    let s0 = Seq::<LayerAnchorEdge>::empty();
    let s1 = if has_anchor(anchor, ANCHOR_TOP) { s0.push(LayerAnchorEdge::Top) } else { s0 };
    let s2 = if has_anchor(anchor, ANCHOR_BOTTOM) { s1.push(LayerAnchorEdge::Bottom) } else { s1 };
    let s3 = if has_anchor(anchor, ANCHOR_LEFT) { s2.push(LayerAnchorEdge::Left) } else { s2 };
    if has_anchor(anchor, ANCHOR_RIGHT) { s3.push(LayerAnchorEdge::Right) } else { s3 }
}

pub fn anchor_edges(anchor: u32) -> (edges: Vec<LayerAnchorEdge>)
    ensures
        edges@ == anchor_edges_spec(anchor),
{
    let mut edges = Vec::new();
    if anchor & ANCHOR_TOP != 0 {
        edges.push(LayerAnchorEdge::Top);
    }
    if anchor & ANCHOR_BOTTOM != 0 {
        edges.push(LayerAnchorEdge::Bottom);
    }
    if anchor & ANCHOR_LEFT != 0 {
        edges.push(LayerAnchorEdge::Left);
    }
    if anchor & ANCHOR_RIGHT != 0 {
        edges.push(LayerAnchorEdge::Right);
    }
    edges
}

pub open spec fn layer_kind(l: Layer) -> LayerShellKind {
    match l {
        Layer::Background => LayerShellKind::Background,
        Layer::Bottom => LayerShellKind::Bottom,
        Layer::Top => LayerShellKind::Top,
        Layer::Overlay => LayerShellKind::Overlay,
    }
}

/// The exclusive zone a client is told: the distance, read as an `i32`, of
/// an exclusive zone; nothing otherwise.
pub open spec fn exclusive_zone_info(z: ExclusiveZone) -> Option<i32> {
    match z {
        ExclusiveZone::Exclusive(v) => Some(v as i32),
        _ => None,
    }
}

pub open spec fn interactivity_info(k: KeyboardInteractivity) -> LayerKeyboardInteractivity {
    match k {
        KeyboardInteractivity::NoKeyboard => LayerKeyboardInteractivity::NoKeyboard,
        KeyboardInteractivity::OnDemand => LayerKeyboardInteractivity::OnDemand,
        KeyboardInteractivity::Exclusive => LayerKeyboardInteractivity::Exclusive,
    }
}

/// `info` describes `summary` on the output named `output`.
pub open spec fn describes(info: LayerInfo, summary: LayerSurfaceSummary, output: Seq<char>) -> bool {
    &&& info.id == summary.handle
    &&& info.namespace == summary.namespace
    &&& (info.output matches Some(o) && o@ == output)
    &&& info.layer == layer_kind(summary.layer)
    &&& info.anchor@ == anchor_edges_spec(summary.anchor)
    &&& info.exclusive_zone == exclusive_zone_info(summary.exclusive_zone)
    &&& info.keyboard_interactivity == interactivity_info(summary.keyboard_interactivity)
    &&& info.keyboard_focus == summary.keyboard_focus
    &&& info.committed == summary.committed
    &&& info.promoted_node == summary.promoted_node
    &&& info.pos_x == summary.origin.0
    &&& info.pos_y == summary.origin.1
    &&& info.width == summary.size.0
    &&& info.height == summary.size.1
}

/// What a client is told of a layer surface names the surface's own layer,
/// anchor edges, exclusive zone and keyboard interactivity: each layer and
/// each interactivity is reported as itself, an anchor edge is listed
/// exactly when its bit is set (once, in the order top, bottom, left,
/// right), and only an exclusive zone reports a distance.
pub proof fn lemma_layer_info_reports_the_surface(info: LayerInfo, summary: LayerSurfaceSummary, output: Seq<char>)
    requires
        describes(info, summary, output),
    ensures
        (info.layer == LayerShellKind::Background) <==> (summary.layer == Layer::Background),
        (info.layer == LayerShellKind::Bottom) <==> (summary.layer == Layer::Bottom),
        (info.layer == LayerShellKind::Top) <==> (summary.layer == Layer::Top),
        (info.layer == LayerShellKind::Overlay) <==> (summary.layer == Layer::Overlay),
        info.anchor@.contains(LayerAnchorEdge::Top) <==> summary.anchor & 1 != 0,
        info.anchor@.contains(LayerAnchorEdge::Bottom) <==> summary.anchor & 2 != 0,
        info.anchor@.contains(LayerAnchorEdge::Left) <==> summary.anchor & 4 != 0,
        info.anchor@.contains(LayerAnchorEdge::Right) <==> summary.anchor & 8 != 0,
        info.anchor@.no_duplicates(),
        forall|i: int, j: int|
            0 <= i < j < info.anchor@.len() ==> edge_rank(#[trigger] info.anchor@[i]) < edge_rank(
                #[trigger] info.anchor@[j],
            ),
        (info.keyboard_interactivity == LayerKeyboardInteractivity::NoKeyboard) <==> (summary.keyboard_interactivity
            == KeyboardInteractivity::NoKeyboard),
        (info.keyboard_interactivity == LayerKeyboardInteractivity::OnDemand) <==> (summary.keyboard_interactivity
            == KeyboardInteractivity::OnDemand),
        (info.keyboard_interactivity == LayerKeyboardInteractivity::Exclusive) <==> (
        summary.keyboard_interactivity == KeyboardInteractivity::Exclusive),
        info.exclusive_zone is Some <==> summary.exclusive_zone is Exclusive,
        summary.exclusive_zone matches ExclusiveZone::Exclusive(v) ==> (v <= i32::MAX ==> info.exclusive_zone
            == Some(v as i32)),
        info.id == summary.handle,
        info.output matches Some(o) && o@ == output,
        (info.pos_x, info.pos_y) == summary.origin,
        (info.width, info.height) == summary.size,
{
    let a = summary.anchor;
    let s = info.anchor@;
    let t = has_anchor(a, ANCHOR_TOP);
    let b = has_anchor(a, ANCHOR_BOTTOM);
    let l = has_anchor(a, ANCHOR_LEFT);
    let r = has_anchor(a, ANCHOR_RIGHT);
    let s0 = Seq::<LayerAnchorEdge>::empty();
    let s1 = if t { s0.push(LayerAnchorEdge::Top) } else { s0 };
    let s2 = if b { s1.push(LayerAnchorEdge::Bottom) } else { s1 };
    let s3 = if l { s2.push(LayerAnchorEdge::Left) } else { s2 };
    assert(s == (if r { s3.push(LayerAnchorEdge::Right) } else { s3 }));
    assert forall|e: LayerAnchorEdge| s1.contains(e) <==> (t && e == LayerAnchorEdge::Top) by {
        if t { assert(s1[0] == LayerAnchorEdge::Top); }
    }
    assert forall|e: LayerAnchorEdge| s2.contains(e) <==> (s1.contains(e) || (b && e == LayerAnchorEdge::Bottom)) by {
        if b { vstd::seq_lib::lemma_seq_contains_after_push(s1, LayerAnchorEdge::Bottom, e); }
    }
    assert forall|e: LayerAnchorEdge| s3.contains(e) <==> (s2.contains(e) || (l && e == LayerAnchorEdge::Left)) by {
        if l { vstd::seq_lib::lemma_seq_contains_after_push(s2, LayerAnchorEdge::Left, e); }
    }
    assert forall|e: LayerAnchorEdge| s.contains(e) <==> (s3.contains(e) || (r && e == LayerAnchorEdge::Right)) by {
        if r { vstd::seq_lib::lemma_seq_contains_after_push(s3, LayerAnchorEdge::Right, e); }
    }
    assert(s.contains(LayerAnchorEdge::Top) == t);
    assert(s.contains(LayerAnchorEdge::Bottom) == b);
    assert(s.contains(LayerAnchorEdge::Left) == l);
    assert(s.contains(LayerAnchorEdge::Right) == r);
    assert forall|i: int, j: int| 0 <= i < j < s.len() implies edge_rank(#[trigger] s[i]) < edge_rank(#[trigger] s[j]) by {
        assert forall|k: int| 0 <= k < s1.len() implies edge_rank(#[trigger] s1[k]) == 0 by {}
        assert forall|k: int| 0 <= k < s2.len() implies edge_rank(#[trigger] s2[k]) <= 1 by {
            if k < s1.len() { assert(s2[k] == s1[k]); }
        }
        assert forall|k: int| 0 <= k < s3.len() implies edge_rank(#[trigger] s3[k]) <= 2 by {
            if k < s2.len() { assert(s3[k] == s2[k]); }
        }
        assert forall|p: int, q: int| 0 <= p < q < s1.len() implies edge_rank(#[trigger] s1[p]) < edge_rank(#[trigger] s1[q]) by {}
        assert forall|p: int, q: int| 0 <= p < q < s2.len() implies edge_rank(#[trigger] s2[p]) < edge_rank(#[trigger] s2[q]) by {
            if q < s1.len() { assert(s2[p] == s1[p] && s2[q] == s1[q]); } else { assert(s2[p] == s1[p]); }
        }
        assert forall|p: int, q: int| 0 <= p < q < s3.len() implies edge_rank(#[trigger] s3[p]) < edge_rank(#[trigger] s3[q]) by {
            if q < s2.len() { assert(s3[p] == s2[p] && s3[q] == s2[q]); } else { assert(s3[p] == s2[p]); }
        }
        if j < s3.len() {
            assert(s[i] == s3[i] && s[j] == s3[j]);
        } else {
            assert(s[i] == s3[i]);
        }
    }
    assert(s.no_duplicates()) by {
        assert forall|i: int, j: int| 0 <= i < s.len() && 0 <= j < s.len() && i != j implies s[i] != s[j] by {
            if i < j {
                assert(edge_rank(s[i]) < edge_rank(s[j]));
            } else {
                assert(edge_rank(s[j]) < edge_rank(s[i]));
            }
        }
    }
}

/// Position of an anchor edge in the order edges are listed.
pub open spec fn edge_rank(e: LayerAnchorEdge) -> int {
    match e {
        LayerAnchorEdge::Top => 0,
        LayerAnchorEdge::Bottom => 1,
        LayerAnchorEdge::Left => 2,
        LayerAnchorEdge::Right => 3,
    }
}

/// How a layer surface on `output` is described to clients.
pub fn layer_info(summary: LayerSurfaceSummary, output: &str) -> (info: LayerInfo)
    ensures
        describes(info, summary, output@),
{
    LayerInfo {
        id: summary.handle,
        namespace: summary.namespace,
        output: Some(String::from_str(output)),
        layer: match summary.layer {
            Layer::Background => LayerShellKind::Background,
            Layer::Bottom => LayerShellKind::Bottom,
            Layer::Top => LayerShellKind::Top,
            Layer::Overlay => LayerShellKind::Overlay,
        },
        anchor: anchor_edges(summary.anchor),
        exclusive_zone: match summary.exclusive_zone {
            ExclusiveZone::Exclusive(value) => Some(value as i32),
            ExclusiveZone::Neutral | ExclusiveZone::DontCare => None,
        },
        keyboard_interactivity: match summary.keyboard_interactivity {
            KeyboardInteractivity::NoKeyboard => LayerKeyboardInteractivity::NoKeyboard,
            KeyboardInteractivity::OnDemand => LayerKeyboardInteractivity::OnDemand,
            KeyboardInteractivity::Exclusive => LayerKeyboardInteractivity::Exclusive,
        },
        keyboard_focus: summary.keyboard_focus,
        committed: summary.committed,
        promoted_node: summary.promoted_node,
        pos_x: summary.origin.0,
        pos_y: summary.origin.1,
        width: summary.size.0,
        height: summary.size.1,
    }
}

// ---------------------------------------------------------------------------
// Handles
// ---------------------------------------------------------------------------

pub open spec fn digit_char(d: int) -> char {
    (d + '0' as int) as char
}

/// Decimal representation of `n`, without leading zeros.
pub open spec fn decimal_digits(n: nat) -> Seq<char>
    decreases n,
{
    if n < 10 {
        seq![digit_char(n as int)]
    } else {
        decimal_digits(n / 10).push(digit_char((n % 10) as int))
    }
}

proof fn lemma_decimal_digits(n: nat)
    ensures
        decimal_digits(n).len() > 0,
        all_decimal_digits(decimal_digits(n)),
        decimal_value(decimal_digits(n)) == n,
        decimal_digits(n)[0] != '+',
    decreases n,
{
    if n >= 10 {
        lemma_decimal_digits(n / 10);
        let p = decimal_digits(n / 10);
        let s = decimal_digits(n);
        assert(s.drop_last() =~= p);
        assert forall|i: int| 0 <= i < s.len() implies is_decimal_digit(#[trigger] s[i]) by {
            if i < p.len() {
                assert(s[i] == p[i]);
            }
        }
        assert(s[0] == p[0]);
        assert(s.last() == digit_char((n % 10) as int));
        assert(digit_char((n % 10) as int) as int == (n % 10) + 48);
        assert(decimal_value(s) == decimal_value(p) * 10 + (n % 10));
        assert(n == (n / 10) * 10 + n % 10);
    } else {
        let s = decimal_digits(n);
        assert(s.drop_last() =~= Seq::<char>::empty());
        assert(digit_char(n as int) as int == n + 48);
        assert(decimal_value(s.drop_last()) == 0);
        assert(s.last() == digit_char(n as int));
        assert(decimal_value(s) == decimal_value(s.drop_last()) * 10 + (s.last() as int - '0' as int));
        assert(is_decimal_digit(decimal_digits(n)[0]));
    }
}

/// A handle written in decimal reads back as the same handle: what the
/// compositor prints in its replies, the control client accepts.
pub proof fn lemma_handle_text_roundtrip(handle: u64)
    ensures
        parse_u64_spec(decimal_digits(handle as nat)) == Some(handle),
{
    lemma_decimal_digits(handle as nat);
    let s = decimal_digits(handle as nat);
    assert(!(s.len() > 0 && s[0] == '+'));
}

/// Writes `n` in decimal.
pub fn u64_to_decimal(n: u64) -> (s: String)
    ensures
        s@ == decimal_digits(n as nat),
{
    // digits from the last one to the first
    let mut rev: Vec<char> = Vec::new();
    let mut m = n;
    while m >= 10
        invariant
            decimal_digits(n as nat) == decimal_digits(m as nat) + rev@.reverse(),
        decreases m,
    {
        let d = m % 10;
        let c = ((d as u8) + 48) as char;
        assert(c == digit_char(d as int));
        let ghost before = rev@;
        rev.push(c);
        assert(decimal_digits(m as nat) == decimal_digits((m / 10) as nat).push(c));
        assert(rev@.reverse() =~= seq![c] + before.reverse());
        assert(decimal_digits((m / 10) as nat).push(c) + before.reverse() =~= decimal_digits(
            (m / 10) as nat,
        ) + (seq![c] + before.reverse()));
        m = m / 10;
    }
    let c = ((m as u8) + 48) as char;
    assert(c == digit_char(m as int));
    let mut s = String::new();
    crate::text::string_push(&mut s, c);
    assert(s@ =~= decimal_digits(m as nat));
    let mut k = rev.len();
    while k > 0
        invariant
            k <= rev.len(),
            s@ == decimal_digits(m as nat) + rev@.subrange(k as int, rev.len() as int).reverse(),
            decimal_digits(n as nat) == decimal_digits(m as nat) + rev@.reverse(),
        decreases k,
    {
        let ghost before = s@;
        crate::text::string_push(&mut s, rev[k - 1]);
        assert(rev@.subrange(k - 1, rev.len() as int).reverse() =~= rev@.subrange(
            k as int,
            rev.len() as int,
        ).reverse().push(rev@[k - 1]));
        k = k - 1;
    }
    assert(rev@.subrange(0, rev.len() as int) =~= rev@);
    s
}

/// A layer surface as handle lookup sees it: whether it is alive and the
/// handle it was given, if any.
#[derive(Clone, Copy, Debug, PartialEq, Eq, Structural)]
pub struct LayerSurfaceEntry {
    pub alive: bool,
    pub handle: Option<u64>,
}

pub open spec fn entry_has_handle(e: LayerSurfaceEntry, handle: u64) -> bool {
    e.alive && e.handle == Some(handle)
}

/// Finds the first live layer surface carrying `handle`; otherwise the
/// request fails with "no layer surface with handle N".
pub fn layer_surface_for_handle(surfaces: &[LayerSurfaceEntry], handle: u64) -> (r: Result<usize, ApiError>)
    ensures
        match r {
            Ok(i) => i < surfaces.len() && entry_has_handle(surfaces@[i as int], handle) && forall|j: int|
                0 <= j < i ==> !entry_has_handle(#[trigger] surfaces@[j], handle),
            Err(ApiError::NotFound(m)) => m@ == "no layer surface with handle "@ + decimal_digits(
                handle as nat,
            ) && forall|j: int|
                0 <= j < surfaces.len() ==> !entry_has_handle(#[trigger] surfaces@[j], handle),
        },
{
    let mut i: usize = 0;
    while i < surfaces.len()
        invariant
            i <= surfaces.len(),
            forall|j: int| 0 <= j < i ==> !entry_has_handle(#[trigger] surfaces@[j], handle),
        decreases surfaces.len() - i,
    {
        let e = surfaces[i];
        if e.alive && e.handle == Some(handle) {
            return Ok(i);
        }
        i = i + 1;
    }
    let mut m = String::from_str("no layer surface with handle ");
    let digits = u64_to_decimal(handle);
    m.append(digits.as_str());
    Err(ApiError::NotFound(m))
}

/// The answer to demoting a layer surface that is not promoted.
pub fn not_promoted_error(handle: u64) -> (e: ApiError)
    ensures
        e matches ApiError::NotFound(m) && m@ == "layer surface "@ + decimal_digits(handle as nat)
            + " is not promoted"@,
{
    let mut m = String::from_str("layer surface ");
    let digits = u64_to_decimal(handle);
    m.append(digits.as_str());
    m.append(" is not promoted");
    ApiError::NotFound(m)
}


// ---------------------------------------------------------------------------
// Requests
// ---------------------------------------------------------------------------

/// The layer surfaces of one output.
#[derive(Debug)]
pub struct LayerOutputGroup {
    pub output: String,
    pub layers: Vec<LayerInfo>,
}

#[derive(Debug)]
pub struct LayerListResponse {
    pub outputs: Vec<LayerOutputGroup>,
}

#[derive(Debug)]
pub struct LayerPromoteResponse {
    pub node_id: u64,
}

/// Answers to layer requests.
#[derive(Debug)]
pub enum Response {
    /// The request succeeded with nothing to report (`Ok` in the protocol).
    Success,
    Error(ApiError),
    LayerList(LayerListResponse),
    LayerPromoted(LayerPromoteResponse),
}

/// What the compositor does for a layer request: list the layers (of one
/// output or all), promote or demote the surface at an index of the
/// compositor's surface list, or answer at once.
#[derive(Debug)]
pub enum LayerAction {
    List { output: Option<String> },
    Promote { surface: usize },
    Demote { surface: usize, handle: u64 },
    Reply(Response),
}

/// Decides how to serve a layer request: a promote or demote first resolves
/// its handle among the live surfaces, and answers "no layer surface with
/// handle N" when none carries it.
pub fn plan_layer_request(request: LayerRequest, surfaces: &[LayerSurfaceEntry]) -> (action: LayerAction)
    ensures
        match request {
            LayerRequest::List { output } => action matches LayerAction::List { output: o } && o == output,
            LayerRequest::Promote { handle } => match action {
                LayerAction::Promote { surface } => surface < surfaces.len() && entry_has_handle(
                    surfaces@[surface as int],
                    handle,
                ) && forall|j: int|
                    0 <= j < surface ==> !entry_has_handle(#[trigger] surfaces@[j], handle),
                LayerAction::Reply(Response::Error(ApiError::NotFound(m))) => m@
                    == "no layer surface with handle "@ + decimal_digits(handle as nat) && forall|j: int|
                    0 <= j < surfaces.len() ==> !entry_has_handle(#[trigger] surfaces@[j], handle),
                _ => false,
            },
            LayerRequest::Demote { handle } => match action {
                LayerAction::Demote { surface, handle: h } => h == handle && surface < surfaces.len()
                    && entry_has_handle(surfaces@[surface as int], handle) && forall|j: int|
                    0 <= j < surface ==> !entry_has_handle(#[trigger] surfaces@[j], handle),
                LayerAction::Reply(Response::Error(ApiError::NotFound(m))) => m@
                    == "no layer surface with handle "@ + decimal_digits(handle as nat) && forall|j: int|
                    0 <= j < surfaces.len() ==> !entry_has_handle(#[trigger] surfaces@[j], handle),
                _ => false,
            },
        },
{
    match request {
        LayerRequest::List { output } => LayerAction::List { output },
        LayerRequest::Promote { handle } => match layer_surface_for_handle(surfaces, handle) {
            Ok(surface) => LayerAction::Promote { surface },
            Err(err) => LayerAction::Reply(Response::Error(err)),
        },
        LayerRequest::Demote { handle } => match layer_surface_for_handle(surfaces, handle) {
            Ok(surface) => LayerAction::Demote { surface, handle },
            Err(err) => LayerAction::Reply(Response::Error(err)),
        },
    }
}

/// The answer to a promote: the node the surface now is.
pub fn promote_reply(node_id: u64) -> (r: Response)
    ensures
        r matches Response::LayerPromoted(p) && p.node_id == node_id,
{
    Response::LayerPromoted(LayerPromoteResponse { node_id })
}

/// The answer to a demote: `Ok` when a node was demoted, otherwise the
/// surface was not promoted.
pub fn demote_reply(handle: u64, demoted_node: Option<u64>) -> (r: Response)
    ensures
        demoted_node is Some ==> r is Success,
        demoted_node is None ==> (r matches Response::Error(ApiError::NotFound(m)) && m@ == "layer surface "@
            + decimal_digits(handle as nat) + " is not promoted"@),
{
    match demoted_node {
        Some(_) => Response::Success,
        None => Response::Error(not_promoted_error(handle)),
    }
}

/// The answer to a list request, from each listed output and the summaries
/// of its layer surfaces, in order.
pub fn layer_list_reply(groups: Vec<(String, Vec<LayerSurfaceSummary>)>) -> (r: Response)
    ensures
        r matches Response::LayerList(list) && list.outputs.len() == groups.len() && forall|i: int|
            0 <= i < groups.len() ==> {
                let g = #[trigger] list.outputs@[i];
                &&& g.output@ == groups@[i].0@
                &&& g.layers.len() == groups@[i].1.len()
                &&& forall|k: int|
                    0 <= k < g.layers.len() ==> describes(#[trigger] g.layers@[k], groups@[i].1@[k], groups@[i].0@)
            },
{
    let ghost gs = groups@;
    let mut outputs: Vec<LayerOutputGroup> = Vec::new();
    let mut rest = groups;
    let mut i: usize = 0;
    assert(rest@ =~= gs.subrange(0, gs.len() as int));
    assert(gs.len() == rest.len());
    while rest.len() > 0
        invariant
            i + rest.len() == gs.len(),
            gs.len() <= usize::MAX,
            rest@ == gs.subrange(i as int, gs.len() as int),
            outputs.len() == i,
            forall|j: int|
                0 <= j < i ==> {
                    let g = #[trigger] outputs@[j];
                    &&& g.output@ == gs[j].0@
                    &&& g.layers.len() == gs[j].1.len()
                    &&& forall|k: int|
                        0 <= k < g.layers.len() ==> describes(#[trigger] g.layers@[k], gs[j].1@[k], gs[j].0@)
                },
        decreases rest.len(),
    {
        let ghost before = rest@;
        let (output, summaries) = rest.remove(0);
        assert(gs[i as int] == before[0]);
        assert(rest@ =~= gs.subrange(i + 1, gs.len() as int));
        let ghost sums = summaries@;
        let mut layers: Vec<LayerInfo> = Vec::new();
        let mut srest = summaries;
        assert(sums.len() == srest.len());
        let mut k: usize = 0;
        assert(srest@ =~= sums.subrange(0, sums.len() as int));
        while srest.len() > 0
            invariant
                k + srest.len() == sums.len(),
                sums.len() <= usize::MAX,
                srest@ == sums.subrange(k as int, sums.len() as int),
                layers.len() == k,
                forall|q: int| 0 <= q < k ==> describes(#[trigger] layers@[q], sums[q], output@),
            decreases srest.len(),
        {
            let ghost sbefore = srest@;
            let summary = srest.remove(0);
            assert(sums[k as int] == sbefore[0]);
            assert(srest@ =~= sums.subrange(k + 1, sums.len() as int));
            layers.push(layer_info(summary, output.as_str()));
            k = k + 1;
        }
        outputs.push(LayerOutputGroup { output, layers });
        i = i + 1;
    }
    Response::LayerList(LayerListResponse { outputs })
}

} // verus!
