//! A private link: the token of a resource, its expiry and its policy.

use crate::rotation::{Instant, TokenRotation};
use crate::token::Token;
use vstd::prelude::*;

verus! {

/// Represents a private link. By default, expiry is one day.
#[derive(Clone, Copy, Debug, PartialEq, Eq, Structural)]
pub struct PrivateLink {
    pub id: Token,
    pub expiry: Option<Instant>,
    pub rotation: TokenRotation,
    pub skip_sms: bool,
}

impl PrivateLink {
    /// The link of a resource that is first seen at `now` under the token
    /// `id`: the initial policy, an expiry one lifetime after `now`, and no
    /// exemption from the audit.
    pub open spec fn first_seen(id: Token, now: Instant) -> PrivateLink {
        PrivateLink {
            id,
            expiry: Some(now.plus(TokenRotation::initial().lifetime())),
            rotation: TokenRotation::initial(),
            skip_sms: false,
        }
    }

    /// Whether the expiry is set and lies strictly before `now`.
    pub open spec fn expired(self, now: Instant) -> bool {
        self.expiry matches Some(at) && at.before(now)
    }

    /// The link as the check at `now` leaves it, where `fresh` is the token
    /// drawn for it. A link without expiry gets one, a lifetime after `now`.
    /// A link that has expired gets the fresh token and a new expiry, and
    /// keeps its policy and its exemption; but where the policy asks for the
    /// removal of the resource on expiry, the link is left as it is, for the
    /// resource goes in its place. A link that has not expired is left as it
    /// is.
    pub open spec fn checked(self, now: Instant, fresh: Token) -> PrivateLink {
        match self.expiry {
            None => PrivateLink { expiry: Some(now.plus(self.rotation.lifetime())), ..self },
            Some(at) => if at.before(now) && !self.rotation.remove_on_expiry {
                PrivateLink {
                    id: fresh,
                    expiry: Some(now.plus(self.rotation.lifetime())),
                    ..self
                }
            } else {
                self
            },
        }
    }

    /// The link of a resource that is first seen at `now` under the token
    /// `id`.
    pub fn issued(id: Token, now: Instant) -> (r: Self)
        requires
            now.secs + TokenRotation::initial().lifetime() <= i64::MAX,
        ensures
            r == PrivateLink::first_seen(id, now),
    {
        let rotation = TokenRotation::default();
        PrivateLink { id, expiry: Some(rotation.expiry_at(now)), rotation, skip_sms: false }
    }

    /// Get the hyphenated text of the token of this link.
    pub fn get_token(&self) -> (r: String)
        ensures
            r@ == self.id.text(),
            Token::parsed(r@) == Some(self.id),
    {
        self.id.hyphenated()
    }

    /// Whether this link has expired at `now`.
    pub fn is_expired_at(&self, now: Instant) -> (r: bool)
        ensures
            r == self.expired(now),
    {
        match self.expiry {
            Some(at) => at.is_before(&now),
            None => false,
        }
    }

    /// Checks at `now` whether this link has expired, and tells so. See
    /// `checked` for what becomes of the link; `fresh` is the token it gets
    /// where it rotates.
    pub fn change_if_expired_at(&mut self, now: Instant, fresh: Token) -> (has_expired: bool)
        requires
            now.secs + old(self).rotation.lifetime() <= i64::MAX,
        ensures
            has_expired == old(self).expired(now),
            *final(self) == old(self).checked(now, fresh),
    {
        match self.expiry {
            Some(at) => {
                if at.is_before(&now) {
                    if !self.rotation.remove_on_expiry {
                        self.id = fresh;
                        self.expiry = Some(self.rotation.expiry_at(now));
                    }
                    return true;
                }
            },
            // If expiry is null, then set expiry starting from this moment.
            None => {
                self.expiry = Some(self.rotation.expiry_at(now));
            },
        }
        false
    }

    /// Checks whether this link has expired at this moment, and tells so. A
    /// token is drawn only where the link rotates. Whatever the clock and
    /// the draw give, the link keeps its policy and its exemption, it has an
    /// expiry afterwards, and it keeps its token unless it had expired under a
    /// policy that rotates.
    pub fn change_if_expired(&mut self) -> (has_expired: bool)
        ensures
            exists|now: Instant, fresh: Token|
                has_expired == old(self).expired(now) && *final(self) == old(self).checked(
                    now,
                    fresh,
                ),
            final(self).rotation == old(self).rotation,
            final(self).skip_sms == old(self).skip_sms,
            final(self).expiry is Some,
            !(has_expired && !old(self).rotation.remove_on_expiry) ==> final(self).id == old(
                self,
            ).id,
    {
        let now = Instant::now();
        let fresh = if self.is_expired_at(now) && !self.rotation.remove_on_expiry {
            Token::fresh()
        } else {
            self.id
        };
        let ghost before = *self;
        let has_expired = self.change_if_expired_at(now, fresh);
        assert(has_expired == before.expired(now) && *self == before.checked(now, fresh));
        has_expired
    }
}

impl Default for PrivateLink {
    /// A link with a random token, first seen at this moment.
    fn default() -> (r: Self)
        ensures
            exists|id: Token, now: Instant| r == PrivateLink::first_seen(id, now),
            r.rotation == TokenRotation::initial(),
            !r.skip_sms,
            r.expiry is Some,
    {
        let id = Token::fresh();
        let now = Instant::now();
        let r = PrivateLink::issued(id, now);
        assert(r == PrivateLink::first_seen(id, now));
        r
    }
}

/// Rotation. A link that has expired at `now` under a policy that rotates
/// takes the fresh token and an expiry one lifetime after `now`, keeping its
/// policy and its exemption. Checked again at any `later` moment that is not
/// past the new expiry (the same moment, for one), it has not expired and
/// stays as it is.
pub proof fn rotation_settles(link: PrivateLink, now: Instant, fresh: Token, later: Instant, other: Token)
    requires
        link.expired(now),
        !link.rotation.remove_on_expiry,
        now.secs + link.rotation.lifetime() <= i64::MAX,
        !now.plus(link.rotation.lifetime()).before(later),
    ensures
        link.checked(now, fresh).id == fresh,
        link.checked(now, fresh).expiry == Some(now.plus(link.rotation.lifetime())),
        link.checked(now, fresh).rotation == link.rotation,
        link.checked(now, fresh).skip_sms == link.skip_sms,
        !now.plus(link.rotation.lifetime()).before(now),
        !link.checked(now, fresh).expired(later),
        link.checked(now, fresh).checked(later, other) == link.checked(now, fresh),
{
    crate::rotation::lifetime_bounds(link.rotation);
}

/// Removal on expiry. A link that has expired under a policy that removes
/// the resource is left exactly as it is by the check: it is the resource
/// that goes.
pub proof fn removal_leaves_link(link: PrivateLink, now: Instant, fresh: Token)
    requires
        link.expired(now),
        link.rotation.remove_on_expiry,
    ensures
        link.checked(now, fresh) == link,
{
}

} // verus!
