//! [`DppPolicyRouter`]: where receipts go.
//!
//! A receipt is sensitive if it carries a sensitive tag or a claim with a
//! sensitive name, and public otherwise. The anchor sink gets every receipt; the
//! body goes to the private sink if the receipt is sensitive and to the public
//! sink if it is not.

use vstd::prelude::*;
use vstd::string::*;
use crate::config::DppConfig;
use crate::json::JsonMap;
use crate::order::in_order;
use crate::receipt::{AttesterId, ReceiptView, RoutingDecision, SinkId, StepReceipt};
use crate::text::{copies, holds, texts};

verus! {

/// Where receipts go, and which of them are sensitive.
#[derive(Clone, Debug)]
pub struct DppPolicyRouter {
    sensitive_tags: Vec<String>,
    sensitive_meta_keys: Vec<String>,
    minima_anchor_sink: SinkId,
    tenzro_public_sink: SinkId,
    tenzro_private_sink: SinkId,
    default_attester: Option<AttesterId>,
}

/// What a [`DppPolicyRouter`] goes by.
pub struct RouterView {
    pub sensitive_tags: Seq<Seq<char>>,
    pub sensitive_meta_keys: Seq<Seq<char>>,
    pub minima_anchor_sink: Seq<char>,
    pub tenzro_public_sink: Seq<char>,
    pub tenzro_private_sink: Seq<char>,
    pub default_attester: Option<Seq<char>>,
}

impl View for DppPolicyRouter {
    type V = RouterView;

    closed spec fn view(&self) -> RouterView {
        RouterView {
            sensitive_tags: texts(self.sensitive_tags@),
            sensitive_meta_keys: texts(self.sensitive_meta_keys@),
            minima_anchor_sink: self.minima_anchor_sink.0@,
            tenzro_public_sink: self.tenzro_public_sink.0@,
            tenzro_private_sink: self.tenzro_private_sink.0@,
            default_attester: match self.default_attester {
                Some(a) => Some(a.0@),
                None => None,
            },
        }
    }
}

/// Whether `receipt` is sensitive: one of its tags is, or the name of one of
/// its claims.
pub open spec fn sensitive(router: RouterView, receipt: ReceiptView) -> bool {
    ||| exists|i: int|
        0 <= i < receipt.tags.len() && router.sensitive_tags.contains(#[trigger] receipt.tags[i])
    ||| exists|name: Seq<char>| #[trigger]
        receipt.meta.dom().contains(name) && router.sensitive_meta_keys.contains(name)
}

/// The sinks that `receipt` goes to: the anchor, then the one for its body.
pub open spec fn routed_sinks(router: RouterView, receipt: ReceiptView) -> Seq<Seq<char>> {
    seq![
        router.minima_anchor_sink,
        if sensitive(router, receipt) {
            router.tenzro_private_sink
        } else {
            router.tenzro_public_sink
        },
    ]
}

/// The attesters called alongside: the default one, if there is one.
pub open spec fn routed_attesters(router: RouterView) -> Seq<Seq<char>> {
    match router.default_attester {
        Some(a) => seq![a],
        None => seq![],
    }
}

/// The anchor sink gets every receipt, and one more sink gets its body.
pub proof fn law_every_receipt_is_anchored(router: RouterView, receipt: ReceiptView)
    ensures
        routed_sinks(router, receipt).len() == 2,
        routed_sinks(router, receipt)[0] == router.minima_anchor_sink,
{
}

/// A sensitive receipt goes to the private sink and never to the public one; a
/// public receipt goes to the public sink and never to the private one.
pub proof fn law_body_goes_to_one_side(router: RouterView, receipt: ReceiptView)
    requires
        router.tenzro_private_sink != router.tenzro_public_sink,
        router.minima_anchor_sink != router.tenzro_private_sink,
        router.minima_anchor_sink != router.tenzro_public_sink,
    ensures
        routed_sinks(router, receipt).contains(router.tenzro_private_sink) <==> sensitive(
            router,
            receipt,
        ),
        routed_sinks(router, receipt).contains(router.tenzro_public_sink) <==> !sensitive(
            router,
            receipt,
        ),
{
    let sinks = routed_sinks(router, receipt);
    assert(sinks[1] == if sensitive(router, receipt) {
        router.tenzro_private_sink
    } else {
        router.tenzro_public_sink
    });
}

/// A sensitive receipt stays sensitive when it gets more tags or more claims:
/// no tag makes a receipt public.
pub proof fn law_more_keeps_sensitive(router: RouterView, less: ReceiptView, more: ReceiptView)
    requires
        sensitive(router, less),
        forall|tag: Seq<char>| #[trigger] less.tags.contains(tag) ==> more.tags.contains(tag),
        less.meta.dom().subset_of(more.meta.dom()),
    ensures
        sensitive(router, more),
{
    if exists|i: int|
        0 <= i < less.tags.len() && router.sensitive_tags.contains(#[trigger] less.tags[i]) {
        let i = choose|i: int|
            0 <= i < less.tags.len() && router.sensitive_tags.contains(#[trigger] less.tags[i]);
        assert(less.tags.contains(less.tags[i]));
        let j = choose|j: int| 0 <= j < more.tags.len() && more.tags[j] == less.tags[i];
        assert(router.sensitive_tags.contains(more.tags[j]));
    } else {
        let name = choose|name: Seq<char>| #[trigger]
            less.meta.dom().contains(name) && router.sensitive_meta_keys.contains(name);
        assert(more.meta.dom().contains(name));
    }
}

/// A sensitive receipt stays sensitive when the router gets more sensitive tags or
/// more sensitive names of claims.
pub proof fn law_more_rules_keep_sensitive(less: RouterView, more: RouterView, receipt: ReceiptView)
    requires
        sensitive(less, receipt),
        forall|tag: Seq<char>| #[trigger]
            less.sensitive_tags.contains(tag) ==> more.sensitive_tags.contains(tag),
        forall|name: Seq<char>| #[trigger]
            less.sensitive_meta_keys.contains(name) ==> more.sensitive_meta_keys.contains(name),
    ensures
        sensitive(more, receipt),
{
    if exists|i: int|
        0 <= i < receipt.tags.len() && less.sensitive_tags.contains(#[trigger] receipt.tags[i]) {
        let i = choose|i: int|
            0 <= i < receipt.tags.len() && less.sensitive_tags.contains(#[trigger] receipt.tags[i]);
        assert(more.sensitive_tags.contains(receipt.tags[i]));
    } else {
        let name = choose|name: Seq<char>| #[trigger]
            receipt.meta.dom().contains(name) && less.sensitive_meta_keys.contains(name);
        assert(receipt.meta.dom().contains(name) && more.sensitive_meta_keys.contains(name));
    }
}

/// Where a receipt goes depends on its tags and on the names of its claims, and
/// on nothing else in it.
pub proof fn law_routing_goes_by_tags_and_names(
    router: RouterView,
    one: ReceiptView,
    other: ReceiptView,
)
    requires
        one.tags == other.tags,
        one.meta.dom() == other.meta.dom(),
    ensures
        routed_sinks(router, one) == routed_sinks(router, other),
{
    if sensitive(router, one) {
        law_more_keeps_sensitive(router, one, other);
    }
    if sensitive(router, other) {
        law_more_keeps_sensitive(router, other, one);
    }
}

/// A receipt with a tag that is one of the router's sensitive tags goes to the
/// private sink.
pub proof fn law_sensitive_tag_goes_private(
    router: RouterView,
    receipt: ReceiptView,
    tag: Seq<char>,
)
    requires
        receipt.tags.contains(tag),
        router.sensitive_tags.contains(tag),
    ensures
        sensitive(router, receipt),
        routed_sinks(router, receipt) == seq![
            router.minima_anchor_sink,
            router.tenzro_private_sink,
        ],
{
    let i = choose|i: int| 0 <= i < receipt.tags.len() && receipt.tags[i] == tag;
    assert(router.sensitive_tags.contains(receipt.tags[i]));
}

/// A receipt with a claim whose name is one of the router's sensitive names goes to
/// the private sink.
pub proof fn law_sensitive_claim_goes_private(
    router: RouterView,
    receipt: ReceiptView,
    name: Seq<char>,
)
    requires
        receipt.meta.dom().contains(name),
        router.sensitive_meta_keys.contains(name),
    ensures
        sensitive(router, receipt),
        routed_sinks(router, receipt) == seq![
            router.minima_anchor_sink,
            router.tenzro_private_sink,
        ],
{
}

/// A receipt none of whose tags is a sensitive tag, and none of whose claims has a
/// sensitive name, goes to the public sink.
pub proof fn law_any_other_receipt_goes_public(router: RouterView, receipt: ReceiptView)
    requires
        forall|tag: Seq<char>|
            #![trigger receipt.tags.contains(tag)]
            receipt.tags.contains(tag) ==> !router.sensitive_tags.contains(tag),
        forall|name: Seq<char>|
            #![trigger receipt.meta.dom().contains(name)]
            receipt.meta.dom().contains(name) ==> !router.sensitive_meta_keys.contains(name),
    ensures
        !sensitive(router, receipt),
        routed_sinks(router, receipt) == seq![
            router.minima_anchor_sink,
            router.tenzro_public_sink,
        ],
{
    assert forall|i: int| 0 <= i < receipt.tags.len() implies !router.sensitive_tags.contains(
        #[trigger] receipt.tags[i],
    ) by {
        assert(receipt.tags.contains(receipt.tags[i]));
    }
}

/// The default attester is called, and no other; none where there is none.
pub proof fn law_only_the_default_attester_is_called(router: RouterView)
    ensures
        router.default_attester matches Some(a) ==> routed_attesters(router) == seq![a],
        router.default_attester is None ==> routed_attesters(router).len() == 0,
{
}

impl DppPolicyRouter {
    /// The router that `cfg` describes.
    pub fn new(cfg: &DppConfig) -> (r: Self)
        ensures
            r@.sensitive_tags == texts(cfg.sensitive_tags@),
            r@.sensitive_meta_keys == texts(cfg.sensitive_meta_keys@),
            r@.minima_anchor_sink == cfg.minima_anchor_sink.0@,
            r@.tenzro_public_sink == cfg.tenzro_public_sink.0@,
            r@.tenzro_private_sink == cfg.tenzro_private_sink.0@,
            r@.default_attester == match cfg.default_attester {
                Some(a) => Some(a.0@),
                None => None,
            },
    {
        DppPolicyRouter {
            sensitive_tags: copies(&cfg.sensitive_tags),
            sensitive_meta_keys: copies(&cfg.sensitive_meta_keys),
            minima_anchor_sink: SinkId(cfg.minima_anchor_sink.0.clone()),
            tenzro_public_sink: SinkId(cfg.tenzro_public_sink.0.clone()),
            tenzro_private_sink: SinkId(cfg.tenzro_private_sink.0.clone()),
            default_attester: match &cfg.default_attester {
                Some(a) => Some(AttesterId(a.0.clone())),
                None => None,
            },
        }
    }

    /// Whether `receipt` is sensitive.
    pub fn is_sensitive(&self, receipt: &StepReceipt) -> (r: bool)
        ensures
            r == sensitive(self@, receipt@),
            r <==> {
                ||| exists|i: int|
                    0 <= i < receipt.tags@.len() && self@.sensitive_tags.contains(
                        (#[trigger] receipt.tags@[i])@,
                    )
                ||| exists|name: Seq<char>| #[trigger]
                    receipt.meta@.dom().contains(name) && self@.sensitive_meta_keys.contains(name)
            },
    {
        let mut i: usize = 0;
        while i < receipt.tags.len()
            invariant
                i <= receipt.tags@.len(),
                forall|j: int|
                    0 <= j < i ==> !self@.sensitive_tags.contains(#[trigger] receipt@.tags[j]),
            decreases receipt.tags@.len() - i,
        {
            assert(receipt@.tags[i as int] == receipt.tags@[i as int]@);
            if holds(&self.sensitive_tags, receipt.tags[i].as_str()) {
                assert(self@.sensitive_tags.contains(receipt.tags@[i as int]@));
                return true;
            }
            i = i + 1;
        }
        assert(receipt@.tags.len() == i);
        let by_claim: bool = self.has_sensitive_claim(&receipt.meta);
        assert(receipt@.meta == receipt.meta@);
        assert forall|j: int| 0 <= j < receipt.tags@.len() implies !self@.sensitive_tags.contains(
            (#[trigger] receipt.tags@[j])@,
        ) by {
            assert(!self@.sensitive_tags.contains(receipt@.tags[j]));
        }
        by_claim
    }

    fn has_sensitive_claim(&self, meta: &JsonMap) -> (r: bool)
        ensures
            r == exists|name: Seq<char>| #[trigger]
                meta@.dom().contains(name) && self@.sensitive_meta_keys.contains(name),
    {
        let mut i: usize = 0;
        let ghost listed = in_order(meta@.dom());
        while i < meta.len()
            invariant
                listed == in_order(meta@.dom()),
                i <= listed.len(),
                forall|j: int|
                    0 <= j < i ==> !self@.sensitive_meta_keys.contains(#[trigger] listed[j]),
            decreases listed.len() - i,
        {
            let name: &str = meta.name_at(i);
            if holds(&self.sensitive_meta_keys, name) {
                return true;
            }
            i = i + 1;
        }
        proof {
            assert forall|name: Seq<char>| #[trigger]
                meta@.dom().contains(name) implies !self@.sensitive_meta_keys.contains(name) by {
                assert(listed.contains(name));
            }
        }
        false
    }

    /// Where `receipt` goes.
    pub fn route(&self, receipt: &StepReceipt) -> (r: RoutingDecision)
        ensures
            r@.sinks == routed_sinks(self@, receipt@),
            r@.attesters == routed_attesters(self@),
            r.sinks@.len() == 2,
            r.sinks@[0].0@ == self@.minima_anchor_sink,
            (exists|i: int|
                0 <= i < receipt.tags@.len() && self@.sensitive_tags.contains(
                    (#[trigger] receipt.tags@[i])@,
                )) ==> r.sinks@[1].0@ == self@.tenzro_private_sink,
            (exists|name: Seq<char>| #[trigger]
                receipt.meta@.dom().contains(name) && self@.sensitive_meta_keys.contains(name))
                ==> r.sinks@[1].0@ == self@.tenzro_private_sink,
            (forall|i: int|
                0 <= i < receipt.tags@.len() ==> !self@.sensitive_tags.contains(
                    (#[trigger] receipt.tags@[i])@,
                )) && (forall|name: Seq<char>| #[trigger]
                receipt.meta@.dom().contains(name) ==> !self@.sensitive_meta_keys.contains(name))
                ==> r.sinks@[1].0@ == self@.tenzro_public_sink,
    {
        let mut sinks: Vec<SinkId> = Vec::new();
        sinks.push(SinkId(self.minima_anchor_sink.0.clone()));
        if self.is_sensitive(receipt) {
            sinks.push(SinkId(self.tenzro_private_sink.0.clone()));
        } else {
            sinks.push(SinkId(self.tenzro_public_sink.0.clone()));
        }
        let mut attesters: Vec<AttesterId> = Vec::new();
        match &self.default_attester {
            Some(a) => {
                attesters.push(AttesterId(a.0.clone()));
            },
            None => {},
        }
        let decision = RoutingDecision { sinks, attesters };
        assert(decision@.sinks =~= routed_sinks(self@, receipt@));
        assert(decision@.attesters =~= routed_attesters(self@));
        proof {
            assert(receipt@.meta == receipt.meta@);
            assert forall|i: int| 0 <= i < receipt.tags@.len() implies receipt@.tags[i]
                == (#[trigger] receipt.tags@[i])@ by {}
            if exists|i: int|
                0 <= i < receipt.tags@.len() && self@.sensitive_tags.contains(
                    (#[trigger] receipt.tags@[i])@,
                ) {
                let i = choose|i: int|
                    0 <= i < receipt.tags@.len() && self@.sensitive_tags.contains(
                        (#[trigger] receipt.tags@[i])@,
                    );
                assert(self@.sensitive_tags.contains(receipt@.tags[i]));
            }
        }
        decision
    }
}

} // verus!
