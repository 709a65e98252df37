//! The chain configuration of a run.
use vstd::prelude::*;

verus! {

#[verifier::external_type_specification]
#[verifier::external_body]
pub struct ExUrl(url::Url);

/// The chain to read: its id and the denomination of its native token.
#[derive(Clone, Debug, PartialEq, Eq)]
pub struct Chain {
    pub id: String,
    pub denom: String,
}

/// An endpoint and the most requests per second to send it.
#[derive(Debug)]
pub struct Endpoint {
    pub url: url::Url,
    pub rate_limit: Option<u64>,
}

#[derive(Debug)]
pub struct Config {
    pub chain: Chain,
    pub rpc: Endpoint,
}

#[derive(Clone, Copy, Debug, PartialEq, Eq, Structural)]
pub enum ConfigError {
    MissingChain,
    MissingRpc,
}

impl Config {
    pub fn builder() -> (r: ConfigBuilder)
        ensures
            r.chain_set() is None,
            r.rpc_set() is None,
    {
        ConfigBuilder { chain: None, rpc: None }
    }
}

/// Collects the parts of a `Config`; `build` fails on a missing part.
#[derive(Debug)]
pub struct ConfigBuilder {
    chain: Option<Chain>,
    rpc: Option<Endpoint>,
}

impl ConfigBuilder {
    pub closed spec fn chain_set(&self) -> Option<Chain> {
        self.chain
    }

    pub closed spec fn rpc_set(&self) -> Option<Endpoint> {
        self.rpc
    }

    pub fn chain(self, id: String, denom: String) -> (r: ConfigBuilder)
        ensures
            r.chain_set() == Some(Chain { id, denom }),
            r.rpc_set() == self.rpc_set(),
    {
        ConfigBuilder { chain: Some(Chain { id, denom }), rpc: self.rpc }
    }

    pub fn rpc(self, url: url::Url, rate_limit: Option<u64>) -> (r: ConfigBuilder)
        ensures
            r.chain_set() == self.chain_set(),
            r.rpc_set() == Some(Endpoint { url, rate_limit }),
    {
        ConfigBuilder { chain: self.chain, rpc: Some(Endpoint { url, rate_limit }) }
    }

    pub fn build(self) -> (r: Result<Config, ConfigError>)
        ensures
            self.chain_set() is None ==> r == Err::<Config, ConfigError>(ConfigError::MissingChain),
            self.chain_set() is Some && self.rpc_set() is None ==> r == Err::<Config, ConfigError>(
                ConfigError::MissingRpc,
            ),
            self.chain_set() is Some && self.rpc_set() is Some ==> r == Ok::<Config, ConfigError>(
                Config { chain: self.chain_set()->Some_0, rpc: self.rpc_set()->Some_0 },
            ),
    {
        let chain = match self.chain {
            Some(c) => c,
            None => return Err(ConfigError::MissingChain),
        };
        let rpc = match self.rpc {
            Some(e) => e,
            None => return Err(ConfigError::MissingRpc),
        };
        Ok(Config { chain, rpc })
    }
}

} // verus!
