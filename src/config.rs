//! Settings of the three harvests, and the source descriptor of each.
use vstd::prelude::*;
use vstd::string::*;

verus! {

/// Settings of the harvest of verifier hashes over a repository's tags.
pub struct VerifierConfig {
    pub owner: String,
    pub repo: String,
    pub subpath: String,
    pub tags_prefix: String,
    pub out_path: String,
    pub parallel: usize,
    pub max_tags: Option<usize>,
}

impl Default for VerifierConfig {
    fn default() -> (r: VerifierConfig)
        ensures
            r.owner@ == "matter-labs"@,
            r.repo@ == "zksync-airbender"@,
            r.subpath@ == "tools/verifier"@,
            r.tags_prefix@ == "v"@,
            r.out_path@ == "airbender_verifier_index.json"@,
            r.parallel == 16,
            r.max_tags is None,
    {
        VerifierConfig {
            owner: String::from_str("matter-labs"),
            repo: String::from_str("zksync-airbender"),
            subpath: String::from_str("tools/verifier"),
            tags_prefix: String::from_str("v"),
            out_path: String::from_str("airbender_verifier_index.json"),
            parallel: 16,
            max_tags: None,
        }
    }
}

/// Settings of the harvest of commitment hashes over a directory's subdirectories.
pub struct CommitmentConfig {
    pub owner: String,
    pub repo: String,
    pub base_path: String,
    pub branch: String,
    pub out_path: String,
    pub parallel: usize,
}

impl Default for CommitmentConfig {
    fn default() -> (r: CommitmentConfig)
        ensures
            r.owner@ == "matter-labs"@,
            r.repo@ == "zksync-era"@,
            r.base_path@ == "prover/data/historical_data"@,
            r.branch@ == "main"@,
            r.out_path@ == "commitments.json"@,
            r.parallel == 16,
    {
        CommitmentConfig {
            owner: String::from_str("matter-labs"),
            repo: String::from_str("zksync-era"),
            base_path: String::from_str("prover/data/historical_data"),
            branch: String::from_str("main"),
            out_path: String::from_str("commitments.json"),
            parallel: 16,
        }
    }
}

/// Settings of the harvest of registry addresses.
pub struct RegistryConfig {
    pub out: String,
}

impl Default for RegistryConfig {
    fn default() -> (r: RegistryConfig)
        ensures
            r.out@ == "contract_addresses.json"@,
    {
        RegistryConfig { out: String::from_str("contract_addresses.json") }
    }
}

/// `a/b/c`, or `a/b/c/d` where `d` is given.
pub open spec fn slash_joined(a: Seq<char>, b: Seq<char>, c: Seq<char>, d: Option<Seq<char>>) -> Seq<char> {
    match d {
        Some(d) => a + "/"@ + b + "/"@ + c + "/"@ + d,
        None => a + "/"@ + b + "/"@ + c,
    }
}

impl VerifierConfig {
    /// The source descriptor of the index: `owner/repo/subpath`.
    pub fn source(&self) -> (r: String)
        ensures
            r@ == slash_joined(self.owner@, self.repo@, self.subpath@, None),
    {
        let mut s = self.owner.clone();
        s.append("/");
        s.append(self.repo.as_str());
        s.append("/");
        s.append(self.subpath.as_str());
        s
    }
}

impl CommitmentConfig {
    /// The source descriptor of the index: `owner/repo/base_path/branch`.
    pub fn source(&self) -> (r: String)
        ensures
            r@ == slash_joined(self.owner@, self.repo@, self.base_path@, Some(self.branch@)),
    {
        let mut s = self.owner.clone();
        s.append("/");
        s.append(self.repo.as_str());
        s.append("/");
        s.append(self.base_path.as_str());
        s.append("/");
        s.append(self.branch.as_str());
        s
    }
}

} // verus!
