//! What is probed, what is expected of it, and what was measured.
use vstd::arithmetic::power2::pow2;
use vstd::prelude::*;

verus! {

// ---- views -----------------------------------------------------------------

/// The views of the items of a sequence, in order.
pub open spec fn views<T: View>(s: Seq<T>) -> Seq<T::V> {
    Seq::new(s.len(), |i: int| s[i]@)
}

/// The view of an optional value.
pub open spec fn opt_view<T: View>(o: Option<T>) -> Option<T::V> {
    match o {
        Some(x) => Some(x@),
        None => None,
    }
}

/// Copies an optional string.
pub fn copy_opt(s: &Option<String>) -> (r: Option<String>)
    ensures
        opt_view(r) == opt_view(*s),
{
    match s {
        Some(x) => Some(x.clone()),
        None => None,
    }
}

// ---- thresholds ------------------------------------------------------------

/// A number of milliseconds as the bit pattern of an IEEE 754 double, the form in which
/// thresholds are stored. Nothing here computes with it: it is copied from place to place.
#[derive(Clone, Copy, PartialEq, Eq, Structural, Debug)]
pub struct Millis {
    pub bits: u64,
}

impl Millis {
    /// The double with these bits is the whole number `n`: zero has no bits set; any other has
    /// the exponent `e` of its leading bit, biased by 1023, above the 52 fraction bits that
    /// follow that leading bit.
    pub open spec fn is_whole(self, n: nat) -> bool {
        if n == 0 {
            self.bits == 0
        } else {
            exists|e: nat|
                {
                    &&& e <= 52
                    &&& #[trigger] pow2(e) <= n < 2 * pow2(e)
                    &&& self.bits as nat == (1023 + e) * pow2(52) + (n - pow2(e)) * pow2(
                        (52 - e) as nat,
                    )
                }
        }
    }

    /// The double that is the whole number `n`.
    pub open spec fn of(n: nat) -> Millis {
        choose|m: Millis| m.is_whole(n)
    }

    /// At most one double is the whole number `n`.
    pub proof fn lemma_of(self, n: nat)
        requires
            self.is_whole(n),
        ensures
            self == Millis::of(n),
    {
        let other = Millis::of(n);
        if n > 0 {
            let a = choose|e: nat|
                {
                    &&& e <= 52
                    &&& #[trigger] pow2(e) <= n < 2 * pow2(e)
                    &&& self.bits as nat == (1023 + e) * pow2(52) + (n - pow2(e)) * pow2(
                        (52 - e) as nat,
                    )
                };
            let b = choose|e: nat|
                {
                    &&& e <= 52
                    &&& #[trigger] pow2(e) <= n < 2 * pow2(e)
                    &&& other.bits as nat == (1023 + e) * pow2(52) + (n - pow2(e)) * pow2(
                        (52 - e) as nat,
                    )
                };
            vstd::arithmetic::power2::lemma_pow2_unfold(a + 1);
            vstd::arithmetic::power2::lemma_pow2_unfold(b + 1);
            if a < b {
                if a + 1 < b {
                    vstd::arithmetic::power2::lemma_pow2_strictly_increases(a + 1, b);
                }
            } else if b < a {
                if b + 1 < a {
                    vstd::arithmetic::power2::lemma_pow2_strictly_increases(b + 1, a);
                }
            }
        }
    }

    /// The whole number `n` of milliseconds.
    pub fn whole(n: u16) -> (r: Millis)
        ensures
            r.is_whole(n as nat),
            r == Millis::of(n as nat),
    {
        if n == 0 {
            let zero = Millis { bits: 0 };
            proof {
                zero.lemma_of(0);
            }
            return zero;
        }
        proof {
            vstd::arithmetic::power2::lemma2_to64();
            vstd::arithmetic::power2::lemma2_to64_rest();
        }
        let mut e: u64 = 0;
        let mut low: u64 = 1;
        let mut scale: u64 = 0x10_0000_0000_0000;
        while low * 2 <= n as u64
            invariant
                0 < n,
                low <= n,
                e <= 16,
                low == pow2(e as nat),
                scale == pow2((52 - e) as nat),
                scale <= 0x10_0000_0000_0000,
            decreases n - low,
        {
            proof {
                vstd::arithmetic::power2::lemma_pow2_unfold((e + 1) as nat);
                vstd::arithmetic::power2::lemma_pow2_unfold((52 - e) as nat);
                vstd::arithmetic::power2::lemma2_to64();
                if e == 16 {
                    assert(pow2(16) == 65536);
                }
            }
            low = low * 2;
            scale = scale / 2;
            e = e + 1;
        }
        proof {
            vstd::arithmetic::power2::lemma2_to64_rest();
            vstd::arithmetic::power2::lemma_pow2_pos((52 - e) as nat);
            assert((n - low) * scale <= 65535 * scale) by (nonlinear_arith)
                requires
                    n - low <= 65535,
                    0 <= scale,
            ;
            assert((n - low) * scale < low * scale) by (nonlinear_arith)
                requires
                    n - low < low,
                    0 < scale,
            ;
            vstd::arithmetic::power2::lemma_pow2_adds(e as nat, (52 - e) as nat);
        }
        let r = Millis { bits: (1023 + e) * 0x10_0000_0000_0000 + (n as u64 - low) * scale };
        proof {
            r.lemma_of(n as nat);
        }
        r
    }
}

/// Copies every item of a list.
pub fn copy_all<T: View + Clone>(items: &Vec<T>) -> (r: Vec<T>)
    requires
        forall|x: &T, y: T| #[trigger] call_ensures(T::clone, (x,), y) ==> y@ == x@,
        forall|x: &T| call_requires(T::clone, (x,)),
    ensures
        views(r@) == views(items@),
{
    let mut r: Vec<T> = Vec::new();
    for i in 0..items.len()
        invariant
            forall|x: &T, y: T| #[trigger] call_ensures(T::clone, (x,), y) ==> y@ == x@,
            forall|x: &T| call_requires(T::clone, (x,)),
            r@.len() == i,
            i <= items@.len(),
            forall|j: int| 0 <= j < i ==> (#[trigger] r@[j])@ == items@[j]@,
    {
        let c = items[i].clone();
        r.push(c);
    }
    assert(views(r@) =~= views(items@));
    r
}

/// Expectation thresholds of one tag. A reading belongs to the first threshold that it does
/// not exceed: `good`, `ok`, `poor`, `terrible`. Kept for reading old configurations; a live
/// configuration has [`ThresholdSet`]s.
#[derive(Debug)]
pub struct TagProfile {
    pub tag: String,
    pub good: Millis,
    pub ok: Millis,
    pub poor: Millis,
    pub terrible: Millis,
}

/// What a [`TagProfile`] holds.
#[verifier::ext_equal]
pub struct TagView {
    pub tag: Seq<char>,
    pub good: Millis,
    pub ok: Millis,
    pub poor: Millis,
    pub terrible: Millis,
}

impl View for TagProfile {
    type V = TagView;

    open spec fn view(&self) -> TagView {
        TagView {
            tag: self.tag@,
            good: self.good,
            ok: self.ok,
            poor: self.poor,
            terrible: self.terrible,
        }
    }
}

impl Clone for TagProfile {
    fn clone(&self) -> (r: Self)
        ensures
            r@ == self@,
    {
        TagProfile {
            tag: self.tag.clone(),
            good: self.good,
            ok: self.ok,
            poor: self.poor,
            terrible: self.terrible,
        }
    }
}

/// One tag within a threshold set. Without a `color` of its own it has the set's.
#[derive(Debug)]
pub struct Alias {
    pub text: String,
    pub color: Option<String>,
}

/// What an [`Alias`] holds.
#[verifier::ext_equal]
pub struct AliasView {
    pub text: Seq<char>,
    pub color: Option<Seq<char>>,
}

impl View for Alias {
    type V = AliasView;

    open spec fn view(&self) -> AliasView {
        AliasView {
            text: self.text@,
            color: opt_view(self.color),
        }
    }
}

impl Clone for Alias {
    fn clone(&self) -> (r: Self)
        ensures
            r@ == self@,
    {
        Alias {
            text: self.text.clone(),
            color: copy_opt(&self.color),
        }
    }
}

/// A named set of thresholds with a colour and the further tags that share them. The `name` is
/// itself a tag. A `builtin` set cannot be deleted.
#[derive(Debug)]
pub struct ThresholdSet {
    pub name: String,
    pub color: String,
    pub good: Millis,
    pub ok: Millis,
    pub poor: Millis,
    pub terrible: Millis,
    pub aliases: Vec<Alias>,
    pub builtin: bool,
}

/// What a [`ThresholdSet`] holds.
#[verifier::ext_equal]
pub struct SetView {
    pub name: Seq<char>,
    pub color: Seq<char>,
    pub good: Millis,
    pub ok: Millis,
    pub poor: Millis,
    pub terrible: Millis,
    pub aliases: Seq<AliasView>,
    pub builtin: bool,
}

impl View for ThresholdSet {
    type V = SetView;

    open spec fn view(&self) -> SetView {
        SetView {
            name: self.name@,
            color: self.color@,
            good: self.good,
            ok: self.ok,
            poor: self.poor,
            terrible: self.terrible,
            aliases: views(self.aliases@),
            builtin: self.builtin,
        }
    }
}

impl Clone for ThresholdSet {
    fn clone(&self) -> (r: Self)
        ensures
            r@ == self@,
    {
        ThresholdSet {
            name: self.name.clone(),
            color: self.color.clone(),
            good: self.good,
            ok: self.ok,
            poor: self.poor,
            terrible: self.terrible,
            aliases: copy_all(&self.aliases),
            builtin: self.builtin,
        }
    }
}

/// One destination to probe.
#[derive(Debug)]
pub struct Target {
    pub id: String,
    pub label: String,
    /// A domain name or an IP literal.
    pub host: String,
    /// The name of a threshold set or one of its aliases.
    pub tag: String,
    pub interval_ms: u64,
}

/// What a [`Target`] holds.
#[verifier::ext_equal]
pub struct TargetView {
    pub id: Seq<char>,
    pub label: Seq<char>,
    pub host: Seq<char>,
    pub tag: Seq<char>,
    pub interval_ms: u64,
}

impl View for Target {
    type V = TargetView;

    open spec fn view(&self) -> TargetView {
        TargetView {
            id: self.id@,
            label: self.label@,
            host: self.host@,
            tag: self.tag@,
            interval_ms: self.interval_ms,
        }
    }
}

impl Clone for Target {
    fn clone(&self) -> (r: Self)
        ensures
            r@ == self@,
    {
        Target {
            id: self.id.clone(),
            label: self.label.clone(),
            host: self.host.clone(),
            tag: self.tag.clone(),
            interval_ms: self.interval_ms,
        }
    }
}

/// This instance's identity and role on the network.
#[derive(Debug)]
pub struct NodeInfo {
    pub id: String,
    pub name: String,
    /// `client` or `server`.
    pub mode: String,
}

/// What a [`NodeInfo`] holds.
#[verifier::ext_equal]
pub struct NodeView {
    pub id: Seq<char>,
    pub name: Seq<char>,
    pub mode: Seq<char>,
}

impl View for NodeInfo {
    type V = NodeView;

    open spec fn view(&self) -> NodeView {
        NodeView {
            id: self.id@,
            name: self.name@,
            mode: self.mode@,
        }
    }
}

impl Clone for NodeInfo {
    fn clone(&self) -> (r: Self)
        ensures
            r@ == self@,
    {
        NodeInfo {
            id: self.id.clone(),
            name: self.name.clone(),
            mode: self.mode.clone(),
        }
    }
}

/// A paired peer and the secret agreed with it. `role` is the peer's role: a `server` directs us,
/// a `client` is directed by us.
#[derive(Debug)]
pub struct Peer {
    pub id: String,
    pub name: String,
    pub secret: String,
    pub role: String,
    pub addr: Option<String>,
}

/// What a [`Peer`] holds.
#[verifier::ext_equal]
pub struct PeerView {
    pub id: Seq<char>,
    pub name: Seq<char>,
    pub secret: Seq<char>,
    pub role: Seq<char>,
    pub addr: Option<Seq<char>>,
}

impl View for Peer {
    type V = PeerView;

    open spec fn view(&self) -> PeerView {
        PeerView {
            id: self.id@,
            name: self.name@,
            secret: self.secret@,
            role: self.role@,
            addr: opt_view(self.addr),
        }
    }
}

impl Clone for Peer {
    fn clone(&self) -> (r: Self)
        ensures
            r@ == self@,
    {
        Peer {
            id: self.id.clone(),
            name: self.name.clone(),
            secret: self.secret.clone(),
            role: self.role.clone(),
            addr: copy_opt(&self.addr),
        }
    }
}

/// The whole configuration.
#[derive(Debug)]
pub struct AppConfig {
    pub targets: Vec<Target>,
    pub sets: Vec<ThresholdSet>,
    /// Profiles of an old configuration: read, folded into `sets`, never written.
    pub tags: Vec<TagProfile>,
    pub node: NodeInfo,
    pub peers: Vec<Peer>,
    /// `system`, `light` or `dark`.
    pub theme: String,
    /// How a pixel column reduces its samples: `worst`, `trimmed`, `mean`, `median` or `best`.
    pub aggregate: String,
}

/// What an [`AppConfig`] holds.
#[verifier::ext_equal]
pub struct ConfigView {
    pub targets: Seq<TargetView>,
    pub sets: Seq<SetView>,
    pub tags: Seq<TagView>,
    pub node: NodeView,
    pub peers: Seq<PeerView>,
    pub theme: Seq<char>,
    pub aggregate: Seq<char>,
}

impl View for AppConfig {
    type V = ConfigView;

    open spec fn view(&self) -> ConfigView {
        ConfigView {
            targets: views(self.targets@),
            sets: views(self.sets@),
            tags: views(self.tags@),
            node: self.node@,
            peers: views(self.peers@),
            theme: self.theme@,
            aggregate: self.aggregate@,
        }
    }
}

impl Clone for AppConfig {
    fn clone(&self) -> (r: Self)
        ensures
            r@ == self@,
    {
        AppConfig {
            targets: copy_all(&self.targets),
            sets: copy_all(&self.sets),
            tags: copy_all(&self.tags),
            node: self.node.clone(),
            peers: copy_all(&self.peers),
            theme: self.theme.clone(),
            aggregate: self.aggregate.clone(),
        }
    }
}

/// The interval of a target whose configuration names none: one second.
pub fn default_interval() -> (r: u64)
    ensures
        r == 1000,
{
    1000
}

/// The theme of a configuration that names none.
pub fn default_theme() -> (r: String)
    ensures
        r@ == "system"@,
{
    "system".to_owned()
}

/// The aggregate of a configuration that names none.
pub fn default_aggregate() -> (r: String)
    ensures
        r@ == "worst"@,
{
    "worst".to_owned()
}

impl Default for NodeInfo {
    fn default() -> (r: Self)
        ensures
            r@ == (NodeView { id: Seq::empty(), name: Seq::empty(), mode: "client"@ }),
    {
        NodeInfo { id: String::new(), name: String::new(), mode: "client".to_owned() }
    }
}

} // verus!
