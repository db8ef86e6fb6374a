//! Screening of webhook requests: who may deliver updates, and what each request is answered.

use vstd::prelude::*;

verus! {

use crate::messages::{secret_of};
use crate::config::{optional, TelegramConfig};
use crate::listing::concat;
use crate::network::{
    covered, is_cloudflare_ip, is_trusted_proxy_ip, parse_trusted_proxy_cidrs, ranges_wf,
    readable_ranges, Cidr, PeerAddress,
};
use crate::numbers::{decimal, render_usize};
use crate::text::{has_prefix, lemma_occurs_behind, lemma_still_occurs, occurs_in, same, views};
use crate::updates::{parse_update, parsed_update, IncomingUpdate};

/// Whom webhook requests are accepted from.
#[derive(Debug)]
pub struct WebhookPolicy {
    pub secret_token: Option<String>,
    pub cloudflare_ip_ranges: Vec<Cidr>,
    pub trusted_proxy_cidrs: Vec<Cidr>,
}

/// What is known of a webhook request before its body is read.
#[derive(Debug)]
pub struct WebhookRequest {
    pub peer: PeerAddress,
    pub cf_connecting_ip: Option<String>,
    pub cf_ray: Option<String>,
    pub secret_token: Option<String>,
    pub path: String,
    pub body_bytes: usize,
}

/// What became of the body of a request that passed the screening.
#[derive(Debug)]
pub enum BodyOutcome {
    /// It is no update; the text says why.
    Invalid(String),
    /// It is an update, but nobody takes updates any more.
    Unavailable,
    /// The update was handed on.
    Queued,
}

/// The answer to a request, and what the log says about it.
#[derive(Debug)]
pub struct WebhookReply {
    pub status: u16,
    pub allowed: bool,
    pub detail: String,
}

impl WebhookPolicy {
    pub open spec fn wf(&self) -> bool {
        ranges_wf(self.cloudflare_ip_ranges@) && ranges_wf(self.trusted_proxy_cidrs@)
    }

    /// The policy that is configured, with the ranges of Cloudflare: the configured proxies are
    /// trusted, and an empty secret token asks for none.
    pub fn configured(config: &TelegramConfig, cloudflare_ip_ranges: Vec<Cidr>) -> (r: Result<
        WebhookPolicy,
        String,
    >)
        requires
            ranges_wf(cloudflare_ip_ranges@),
        ensures
            r is Ok <==> readable_ranges(views(config.webhook_trusted_proxy_cidrs@)).len()
                == config.webhook_trusted_proxy_cidrs@.len(),
            r matches Ok(policy) ==> {
                &&& policy.wf()
                &&& policy.cloudflare_ip_ranges == cloudflare_ip_ranges
                &&& policy.trusted_proxy_cidrs@ == readable_ranges(
                    views(config.webhook_trusted_proxy_cidrs@),
                )
                &&& optional(policy.secret_token) == secret_of(*config)
                &&& optional(policy.secret_token) == (if config.webhook_secret_token@.len() == 0 {
                    None
                } else {
                    Some(config.webhook_secret_token@)
                })
            },
            r matches Err(message) ==> message@ == "invalid trusted proxy CIDR "@ + views(
                config.webhook_trusted_proxy_cidrs@,
            )[readable_ranges(views(config.webhook_trusted_proxy_cidrs@)).len() as int],
    {
        match parse_trusted_proxy_cidrs(&config.webhook_trusted_proxy_cidrs) {
            Ok(trusted_proxy_cidrs) => {
                let secret_token = if config.webhook_secret_token.as_str().is_empty() {
                    None
                } else {
                    Some(config.webhook_secret_token.as_str().to_owned())
                };
                Ok(WebhookPolicy { secret_token, cloudflare_ip_ranges, trusted_proxy_cidrs })
            },
            Err(message) => Err(message),
        }
    }
}

impl WebhookRequest {
    pub open spec fn has_cloudflare_headers(&self) -> bool {
        self.cf_connecting_ip is Some && self.cf_ray is Some
    }

    pub open spec fn from_cloudflare(&self, policy: &WebhookPolicy) -> bool {
        covered(policy.cloudflare_ip_ranges@, self.peer)
    }

    pub open spec fn from_trusted_proxy(&self, policy: &WebhookPolicy) -> bool {
        covered(policy.trusted_proxy_cidrs@, self.peer)
    }

    pub open spec fn knows_secret(&self, policy: &WebhookPolicy) -> bool {
        policy.secret_token is Some ==> optional(self.secret_token) == optional(
            policy.secret_token,
        )
    }

    /// Neither the network nor a proxy under the owner's control sent it.
    pub open spec fn from_stranger(&self, policy: &WebhookPolicy) -> bool {
        !self.from_cloudflare(policy) && !(self.from_trusted_proxy(policy)
            && self.has_cloudflare_headers())
    }

    /// A trusted proxy sent it without saying whom it stands for.
    pub open spec fn from_anonymous_proxy(&self, policy: &WebhookPolicy) -> bool {
        self.from_trusted_proxy(policy) && !self.has_cloudflare_headers()
    }

    /// Whether the body of the request is looked at.
    pub open spec fn passes(&self, policy: &WebhookPolicy) -> bool {
        !self.from_stranger(policy) && !self.from_anonymous_proxy(policy) && self.knows_secret(
            policy,
        )
    }

    /// The status of a request that is refused before its body is read.
    pub open spec fn refusal_status(&self, policy: &WebhookPolicy) -> u16 {
        if self.from_stranger(policy) || self.from_anonymous_proxy(policy) {
            403
        } else {
            401
        }
    }

    /// What the log says of a request that is refused before its body is read.
    pub open spec fn refusal_detail(&self, policy: &WebhookPolicy) -> Seq<char> {
        if self.from_stranger(policy) {
            "rejected sender path="@ + self.path@
                + " reason=peer not in Cloudflare ranges or trusted proxy allowlist"@
        } else if self.from_anonymous_proxy(policy) {
            "rejected sender path="@ + self.path@
                + " reason=trusted proxy request missing Cloudflare headers"@
        } else {
            "rejected invalid secret token path="@ + self.path@
        }
    }
}

/// Decides about a request before its body is read: a refusal, or nothing where it passes.
pub fn screen_webhook_request(policy: &WebhookPolicy, request: &WebhookRequest) -> (r: Option<
    WebhookReply,
>)
    requires
        policy.wf(),
    ensures
        r is None <==> request.passes(policy),
        r matches Some(reply) ==> {
            &&& reply.status == request.refusal_status(policy)
            &&& !reply.allowed
            &&& reply.detail@ == request.refusal_detail(policy)
        },
{
    let from_cloudflare = is_cloudflare_ip(request.peer, &policy.cloudflare_ip_ranges);
    let from_trusted_proxy = is_trusted_proxy_ip(request.peer, &policy.trusted_proxy_cidrs);
    let has_headers = request.cf_connecting_ip.is_some() && request.cf_ray.is_some();
    if !from_cloudflare && !(from_trusted_proxy && has_headers) {
        let mut detail = concat("rejected sender path=", request.path.as_str());
        detail.append(" reason=peer not in Cloudflare ranges or trusted proxy allowlist");
        return Some(WebhookReply { status: 403, allowed: false, detail });
    }
    if from_trusted_proxy && !has_headers {
        let mut detail = concat("rejected sender path=", request.path.as_str());
        detail.append(" reason=trusted proxy request missing Cloudflare headers");
        return Some(WebhookReply { status: 403, allowed: false, detail });
    }
    match &policy.secret_token {
        Some(expected) => {
            let known = match &request.secret_token {
                Some(provided) => same(provided.as_str(), expected.as_str()),
                None => false,
            };
            if !known {
                return Some(
                    WebhookReply {
                        status: 401,
                        allowed: false,
                        detail: concat(
                            "rejected invalid secret token path=",
                            request.path.as_str(),
                        ),
                    },
                );
            }
        },
        None => {},
    }
    None
}

pub open spec fn outcome_status(outcome: BodyOutcome) -> u16 {
    match outcome {
        BodyOutcome::Invalid(_) => 400,
        BodyOutcome::Unavailable => 503,
        BodyOutcome::Queued => 200,
    }
}

/// What the log says of a request whose body is no update.
pub open spec fn invalid_detail(request: &WebhookRequest, error: Seq<char>) -> Seq<char> {
    "rejected invalid json path="@ + request.path@ + " error="@ + error
}

pub open spec fn outcome_detail(request: &WebhookRequest, outcome: BodyOutcome) -> Seq<char> {
    match outcome {
        BodyOutcome::Invalid(error) => invalid_detail(request, error@),
        BodyOutcome::Unavailable => "rejected unavailable processor path="@ + request.path@,
        BodyOutcome::Queued => "accepted path="@ + request.path@ + " bytes="@ + decimal(
            request.body_bytes as nat,
        ),
    }
}

/// The answer to a request that passed the screening.
pub fn conclude_webhook_request(request: &WebhookRequest, outcome: &BodyOutcome) -> (r:
    WebhookReply)
    ensures
        r.status == outcome_status(*outcome),
        r.allowed <==> *outcome is Queued,
        r.detail@ == outcome_detail(request, *outcome),
{
    match outcome {
        BodyOutcome::Invalid(error) => {
            let mut detail = concat("rejected invalid json path=", request.path.as_str());
            detail.append(" error=");
            detail.append(error.as_str());
            WebhookReply { status: 400, allowed: false, detail }
        },
        BodyOutcome::Unavailable => WebhookReply {
            status: 503,
            allowed: false,
            detail: concat("rejected unavailable processor path=", request.path.as_str()),
        },
        BodyOutcome::Queued => {
            let mut detail = concat("accepted path=", request.path.as_str());
            detail.append(" bytes=");
            detail.append(render_usize(request.body_bytes).as_str());
            WebhookReply { status: 200, allowed: true, detail }
        },
    }
}

/// The update in the body of a request that passed the screening, or the answer where there is
/// none.
pub fn accept_body(request: &WebhookRequest, parsed: Result<IncomingUpdate, String>) -> (r: Result<
    IncomingUpdate,
    WebhookReply,
>)
    ensures
        parsed matches Ok(update) ==> r == Ok::<IncomingUpdate, WebhookReply>(update),
        parsed matches Err(error) ==> {
            &&& r matches Err(reply)
            &&& reply.status == 400
            &&& !reply.allowed
            &&& reply.detail@ == invalid_detail(request, error@)
        },
{
    match parsed {
        Ok(update) => Ok(update),
        Err(error) => Err(conclude_webhook_request(request, &BodyOutcome::Invalid(error))),
    }
}

/// The update that a request delivers, or the answer to a request that delivers none: one that is
/// refused by the screening, or whose body is no update.
pub fn receive_update(policy: &WebhookPolicy, request: &WebhookRequest, body: &Vec<u8>) -> (r:
    Result<IncomingUpdate, WebhookReply>)
    requires
        policy.wf(),
    ensures
        r is Ok <==> request.passes(policy) && parsed_update(body@) is Ok,
        r matches Ok(update) ==> update@ == parsed_update(body@)->Ok_0,
        r matches Err(reply) ==> {
            &&& !reply.allowed
            &&& reply.status == (if request.passes(policy) {
                400u16
            } else {
                request.refusal_status(policy)
            })
            &&& reply.detail@ == (if request.passes(policy) {
                invalid_detail(request, parsed_update(body@)->Err_0)
            } else {
                request.refusal_detail(policy)
            })
        },
{
    match screen_webhook_request(policy, request) {
        Some(refusal) => Err(refusal),
        None => accept_body(request, parse_update(body)),
    }
}

/// Every request whose body is looked at came from the Cloudflare ranges, or from a trusted proxy
/// that carries both Cloudflare headers; and it knows the secret token where one is set.
pub proof fn law_passing_requests_are_vouched_for(policy: &WebhookPolicy, request: &WebhookRequest)
    requires
        request.passes(policy),
    ensures
        request.from_cloudflare(policy) || (request.from_trusted_proxy(policy)
            && request.has_cloudflare_headers()),
        request.from_trusted_proxy(policy) ==> request.has_cloudflare_headers(),
        policy.secret_token matches Some(secret) ==> optional(request.secret_token) == Some(
            secret@,
        ),
{
}

/// With no ranges configured, nothing passes.
pub proof fn law_empty_policy_refuses_all(policy: &WebhookPolicy, request: &WebhookRequest)
    requires
        policy.cloudflare_ip_ranges@.len() == 0,
        policy.trusted_proxy_cidrs@.len() == 0,
    ensures
        !request.passes(policy),
{
}

/// Whoever is vouched for and knows the secret gets through: the network itself, and a trusted
/// proxy that says whom it stands for.
pub proof fn law_vouched_requests_pass(policy: &WebhookPolicy, request: &WebhookRequest)
    requires
        policy.secret_token matches Some(secret) ==> (request.secret_token matches Some(given)
            && given@ == secret@),
    ensures
        covered(policy.trusted_proxy_cidrs@, request.peer) && request.cf_connecting_ip is Some
            && request.cf_ray is Some ==> request.passes(policy),
        covered(policy.cloudflare_ip_ranges@, request.peer) && !covered(
            policy.trusted_proxy_cidrs@,
            request.peer,
        ) ==> request.passes(policy),
{
}

/// A request without the secret, or with another, never gets through where one is set; nor does one
/// from an address in no range, whatever it carries, or from a proxy without both headers.
pub proof fn law_unvouched_requests_are_refused(policy: &WebhookPolicy, request: &WebhookRequest)
    ensures
        policy.secret_token matches Some(secret) && request.secret_token is None
            ==> !request.passes(policy),
        policy.secret_token matches Some(secret) && request.secret_token matches Some(given)
            && given@ != secret@ ==> !request.passes(policy),
        !covered(policy.cloudflare_ip_ranges@, request.peer) && !covered(
            policy.trusted_proxy_cidrs@,
            request.peer,
        ) ==> !request.passes(policy) && request.refusal_status(policy) == 403,
        covered(policy.trusted_proxy_cidrs@, request.peer) && (request.cf_connecting_ip is None
            || request.cf_ray is None) ==> !request.passes(policy) && request.refusal_status(policy)
            == 403,
        covered(policy.trusted_proxy_cidrs@, request.peer) && request.cf_connecting_ip is Some
            && request.cf_ray is Some && !request.passes(policy) ==> request.refusal_status(policy)
            == 401,
{
}

/// Only an update that was handed on is answered with success; a body that is no update is the
/// sender's fault, and one that nobody takes is not.
pub proof fn law_status_tells_whose_fault_it_is(outcome: BodyOutcome)
    ensures
        200 <= outcome_status(outcome) < 300 <==> outcome is Queued,
        400 <= outcome_status(outcome) < 500 <==> outcome is Invalid,
        500 <= outcome_status(outcome) < 600 <==> outcome is Unavailable,
{
}

/// The log tells the path of a refused request and why it was refused; only a request from a sender
/// that is vouched for is refused for its token.
pub proof fn law_refusals_are_logged_with_their_reason(
    policy: &WebhookPolicy,
    request: &WebhookRequest,
)
    ensures
        occurs_in(request.refusal_detail(policy), " path="@ + request.path@),
        request.refusal_status(policy) == 401 <==> has_prefix(
            request.refusal_detail(policy),
            "rejected invalid secret token"@,
        ),
        request.refusal_status(policy) == 403 <==> has_prefix(
            request.refusal_detail(policy),
            "rejected sender"@,
        ),
        request.refusal_status(policy) == 401 || request.refusal_status(policy) == 403,
{
    broadcast use lemma_still_occurs;
    broadcast use lemma_occurs_behind;

    reveal_strlit("rejected sender path=");
    reveal_strlit("rejected invalid secret token path=");
    reveal_strlit("rejected sender");
    reveal_strlit("rejected invalid secret token");
    reveal_strlit(" path=");
    assert("rejected sender path="@ =~= "rejected sender"@ + " path="@);
    assert("rejected invalid secret token path="@ =~= "rejected invalid secret token"@ + " path="@);
    let detail = request.refusal_detail(policy);
    if request.from_stranger(policy) || request.from_anonymous_proxy(policy) {
        assert(detail.take(15) =~= "rejected sender"@);
        if has_prefix(detail, "rejected invalid secret token"@) {
            assert(detail.take(29)[9] == detail[9]);
            assert(detail.take(15)[9] == detail[9]);
        }
    } else {
        assert(detail.take(29) =~= "rejected invalid secret token"@);
        if has_prefix(detail, "rejected sender"@) {
            assert(detail.take(15)[9] == detail[9]);
            assert(detail.take(29)[9] == detail[9]);
        }
    }
}

/// A request that carries the secret with which the webhook was registered knows the secret that is
/// asked for, and where there is one no other request does.
pub proof fn law_registered_secret_is_the_one_asked_for(
    config: TelegramConfig,
    policy: &WebhookPolicy,
    request: &WebhookRequest,
)
    requires
        optional(policy.secret_token) == secret_of(config),
    ensures
        optional(request.secret_token) == secret_of(config) ==> request.knows_secret(policy),
        config.webhook_secret_token@.len() > 0 && request.knows_secret(policy) ==> optional(
            request.secret_token,
        ) == Some(config.webhook_secret_token@),
        config.webhook_secret_token@.len() == 0 ==> request.knows_secret(policy),
{
}

} // verus!
