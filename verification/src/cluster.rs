//! The clusters that a record can live on.

use vstd::prelude::*;
use vstd::string::StringExecFns;

verus! {

/// A cluster of the network.
#[derive(Clone, Copy, Debug, PartialEq, Eq, Structural, Hash)]
pub enum Cluster {
    /// The cluster for development.
    Devnet,
    /// The cluster for tests.
    Testnet,
    /// The main cluster.
    MainnetBeta,
}

impl Cluster {
    /// The name of the cluster.
    pub open spec fn spec_name(self) -> Seq<char> {
        match self {
            Cluster::Devnet => "devnet"@,
            Cluster::Testnet => "testnet"@,
            Cluster::MainnetBeta => "mainnet-beta"@,
        }
    }

    /// The address of the cluster's public endpoint.
    pub open spec fn spec_url(self) -> Seq<char> {
        match self {
            Cluster::Devnet => "https://api.devnet.solana.com"@,
            Cluster::Testnet => "https://api.testnet.solana.com"@,
            Cluster::MainnetBeta => "https://api.mainnet-beta.solana.com"@,
        }
    }

    /// The cluster of the given name, if there is one.
    pub open spec fn spec_parse(name: Seq<char>) -> Option<Cluster> {
        if name == "devnet"@ {
            Some(Cluster::Devnet)
        } else if name == "testnet"@ {
            Some(Cluster::Testnet)
        } else if name == "mainnet-beta"@ {
            Some(Cluster::MainnetBeta)
        } else {
            None
        }
    }

    /// The address of the cluster's public endpoint.
    pub fn url(&self) -> (url: &str)
        ensures
            url@ == self.spec_url(),
    {
        match self {
            Cluster::Devnet => "https://api.devnet.solana.com",
            Cluster::Testnet => "https://api.testnet.solana.com",
            Cluster::MainnetBeta => "https://api.mainnet-beta.solana.com",
        }
    }

    /// The name of the cluster.
    pub fn name(&self) -> (name: &'static str)
        ensures
            name@ == self.spec_name(),
    {
        match self {
            Cluster::Devnet => "devnet",
            Cluster::Testnet => "testnet",
            Cluster::MainnetBeta => "mainnet-beta",
        }
    }

    /// The name of the cluster, as a string of its own.
    pub fn to_string(&self) -> (name: String)
        ensures
            name@ == self.spec_name(),
    {
        self.name().to_owned()
    }

    /// The cluster of the given name, or a message that says that there is
    /// none.
    pub fn parse(s: &str) -> (r: Result<Cluster, String>)
        ensures
            match Cluster::spec_parse(s@) {
                Some(cluster) => r == Ok::<_, String>(cluster),
                None => r matches Err(message) && message@ == "Invalid cluster: "@ + s@,
            },
    {
        let given: String = s.to_owned();
        if given == "devnet".to_owned() {
            Ok(Cluster::Devnet)
        } else if given == "testnet".to_owned() {
            Ok(Cluster::Testnet)
        } else if given == "mainnet-beta".to_owned() {
            Ok(Cluster::MainnetBeta)
        } else {
            Err("Invalid cluster: ".to_owned().concat(s))
        }
    }
}

impl std::str::FromStr for Cluster {
    type Err = String;

    /// The cluster of the given name, or a message that says that there is
    /// none: what `Cluster::parse` gives.
    fn from_str(s: &str) -> (r: Result<Cluster, String>)
        ensures
            match Cluster::spec_parse(s@) {
                Some(cluster) => r == Ok::<_, String>(cluster),
                None => r matches Err(message) && message@ == "Invalid cluster: "@ + s@,
            },
    {
        Cluster::parse(s)
    }
}

/// Every cluster is found again by its name.
pub proof fn lemma_parse_name(cluster: Cluster)
    ensures
        Cluster::spec_parse(cluster.spec_name()) == Some(cluster),
{
    reveal_strlit("devnet");
    reveal_strlit("testnet");
    reveal_strlit("mainnet-beta");
    assert("devnet"@.len() == 6);
    assert("testnet"@.len() == 7);
    assert("mainnet-beta"@.len() == 12);
}

} // verus!
