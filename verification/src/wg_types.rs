//! The `wireguard_conf` types that the library hands to `wireguard_conf`
//! without looking inside them.
use vstd::prelude::*;

verus! {

#[verifier::external_type_specification]
#[verifier::external_body]
pub struct ExPeer(wireguard_conf::Peer);

#[verifier::external_type_specification]
#[verifier::external_body]
pub struct ExInterface(wireguard_conf::Interface);

#[verifier::external_type_specification]
#[verifier::external_body]
pub struct ExAmneziaWG(wireguard_conf::AmneziaWG);

#[verifier::external_type_specification]
#[verifier::external_body]
pub struct ExAmneziaWG2(wireguard_conf::AmneziaWG2);

} // verus!
