use vstd::prelude::*;

verus! {

/// Identifier of a service instance.
pub type ServiceInstanceId = u32;

/// Identifier of a method of a service.
pub type MethodId = u32;

/// Identifier that belongs to the core of the blockchain and to no service.
pub const CORE_ID: u16 = 0;

/// Identifier of an artifact: its name, and the runtime that it is made for.
#[derive(Debug, PartialEq, Eq)]
pub struct ArtifactId {
    pub runtime_id: u32,
    pub name: String,
}

impl ArtifactId {
    pub fn new(runtime_id: u32, name: &str) -> (artifact: Self)
        ensures
            artifact.runtime_id == runtime_id,
            artifact.name@ == name@,
    {
        ArtifactId { runtime_id, name: name.to_owned() }
    }
}

impl Clone for ArtifactId {
    fn clone(&self) -> (copy: Self)
        ensures
            copy == *self,
    {
        ArtifactId { runtime_id: self.runtime_id, name: self.name.clone() }
    }
}

/// A service instance: its identifier, its name, and the artifact that it is made of.
#[derive(Debug, PartialEq, Eq)]
pub struct InstanceSpec {
    pub artifact: ArtifactId,
    pub id: ServiceInstanceId,
    pub name: String,
}

impl Clone for InstanceSpec {
    fn clone(&self) -> (copy: Self)
        ensures
            copy == *self,
    {
        InstanceSpec { artifact: self.artifact.clone(), id: self.id, name: self.name.clone() }
    }
}

/// A value of any type in its encoded form, such as the parameters of a new instance.
#[derive(Debug, PartialEq, Eq)]
pub struct Any {
    pub type_url: String,
    pub value: Vec<u8>,
}

impl Default for Any {
    fn default() -> (any: Self)
        ensures
            any.type_url@.len() == 0,
            any.value@.len() == 0,
    {
        Any { type_url: String::new(), value: Vec::new() }
    }
}

/// A digest.
#[derive(Debug, Clone, Copy, PartialEq, Eq)]
pub struct Hash(pub [u8; 32]);

/// Public key of a signer.
#[derive(Debug, Clone, Copy, PartialEq, Eq)]
pub struct PublicKey(pub [u8; 32]);

/// Secret key of a signer.
pub struct SecretKey(pub [u8; 64]);

/// The instance and the method that a call is meant for.
#[derive(Debug, Clone, Copy, PartialEq, Eq)]
pub struct CallInfo {
    pub instance_id: ServiceInstanceId,
    pub method_id: MethodId,
}

impl CallInfo {
    pub fn new(instance_id: ServiceInstanceId, method_id: MethodId) -> (info: Self)
        ensures
            info.instance_id == instance_id,
            info.method_id == method_id,
    {
        CallInfo { instance_id, method_id }
    }
}

/// A transaction: a call, with the arguments of the called method in encoded form.
#[derive(Debug, PartialEq, Eq)]
pub struct AnyTx {
    pub call_info: CallInfo,
    pub payload: Vec<u8>,
}

/// A message together with the key that it is signed with. Signatures are checked where
/// messages are received.
#[derive(Debug, PartialEq, Eq)]
pub struct Signed<T> {
    pub payload: T,
    pub author: PublicKey,
}

impl<T> Signed<T> {
    /// The key that the message is signed with.
    pub fn author(&self) -> (author: PublicKey)
        ensures
            author == self.author,
    {
        self.author
    }
}

/// The initiator of a call.
#[derive(Debug, Clone, Copy, PartialEq, Eq)]
pub enum Caller {
    /// A transaction with the given hash, signed by its author.
    Transaction { author: PublicKey, hash: Hash },
    /// The blockchain itself.
    Blockchain,
}

/// A request that the dispatcher makes of the node around it.
#[derive(Debug, Clone, Copy, PartialEq, Eq)]
pub enum InternalRequest {
    /// The set of running services has changed: restart the API.
    RestartApi,
}

} // verus!
