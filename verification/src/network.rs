//! Network parameters: stock main and test chains, or a custom chain that pairs the
//! constants of a network type with activation heights of its own.
use vstd::prelude::*;
use zcash_keys::keys::UnifiedFullViewingKey;
use zcash_protocol::consensus::{self, Parameters};
use zcash_protocol::local_consensus::LocalNetwork;

verus! {

/// The stock networks.
#[derive(Clone, Copy, Debug, PartialEq, Eq, Structural)]
pub enum Network {
    MainNetwork,
    TestNetwork,
}

/// Which constants (address encodings, coin type) a network uses.
#[derive(Clone, Copy, Debug, PartialEq, Eq, Structural)]
pub enum NetworkType {
    Main,
    Test,
    Regtest,
}

/// The network upgrades.
#[derive(Clone, Copy, Debug, PartialEq, Eq, Structural)]
pub enum NetworkUpgrade {
    Overwinter,
    Sapling,
    Blossom,
    Heartwood,
    Canopy,
    Nu5,
    Nu6,
    Nu6_1,
    Nu6_2,
    Nu6_3,
}

/// Activation heights of a custom chain; an upgrade without one never activates.
#[derive(Clone, Copy, Debug, PartialEq, Eq, Structural)]
pub struct CustomActivations {
    pub overwinter: Option<u32>,
    pub sapling: Option<u32>,
    pub blossom: Option<u32>,
    pub heartwood: Option<u32>,
    pub canopy: Option<u32>,
    pub nu5: Option<u32>,
    pub nu6: Option<u32>,
    pub nu6_1: Option<u32>,
    pub nu6_2: Option<u32>,
}

impl Default for CustomActivations {
    fn default() -> (r: Self)
        ensures
            r == CustomActivations::uniform(None),
    {
        CustomActivations {
            overwinter: None,
            sapling: None,
            blossom: None,
            heartwood: None,
            canopy: None,
            nu5: None,
            nu6: None,
            nu6_1: None,
            nu6_2: None,
        }
    }
}

impl CustomActivations {
    /// The same height for every upgrade.
    pub open spec fn uniform(h: Option<u32>) -> CustomActivations {
        CustomActivations {
            overwinter: h,
            sapling: h,
            blossom: h,
            heartwood: h,
            canopy: h,
            nu5: h,
            nu6: h,
            nu6_1: h,
            nu6_2: h,
        }
    }

    /// Every upgrade active from height one.
    pub fn all_from_genesis() -> (r: Self)
        ensures
            r == CustomActivations::uniform(Some(1)),
    {
        CustomActivations {
            overwinter: Some(1),
            sapling: Some(1),
            blossom: Some(1),
            heartwood: Some(1),
            canopy: Some(1),
            nu5: Some(1),
            nu6: Some(1),
            nu6_1: Some(1),
            nu6_2: Some(1),
        }
    }

    /// The height of an upgrade. Upgrades without a field never activate.
    pub open spec fn height_of(self, nu: NetworkUpgrade) -> Option<u32> {
        match nu {
            NetworkUpgrade::Overwinter => self.overwinter,
            NetworkUpgrade::Sapling => self.sapling,
            NetworkUpgrade::Blossom => self.blossom,
            NetworkUpgrade::Heartwood => self.heartwood,
            NetworkUpgrade::Canopy => self.canopy,
            NetworkUpgrade::Nu5 => self.nu5,
            NetworkUpgrade::Nu6 => self.nu6,
            NetworkUpgrade::Nu6_1 => self.nu6_1,
            NetworkUpgrade::Nu6_2 => self.nu6_2,
            NetworkUpgrade::Nu6_3 => None,
        }
    }
}

/// The network of an engine.
#[derive(Clone, Copy, Debug, PartialEq, Eq, Structural)]
pub enum SlipstreamNetwork {
    /// Stock parameters.
    Standard(Network),
    /// The constants of a network type with a schedule of its own.
    Custom { constants: NetworkType, heights: CustomActivations },
}

/// The activation heights of the stock networks.
pub open spec fn stock_height(network: Network, nu: NetworkUpgrade) -> u32 {
    match (network, nu) {
        (Network::MainNetwork, NetworkUpgrade::Overwinter) => 347_500,
        (Network::MainNetwork, NetworkUpgrade::Sapling) => 419_200,
        (Network::MainNetwork, NetworkUpgrade::Blossom) => 653_600,
        (Network::MainNetwork, NetworkUpgrade::Heartwood) => 903_000,
        (Network::MainNetwork, NetworkUpgrade::Canopy) => 1_046_400,
        (Network::MainNetwork, NetworkUpgrade::Nu5) => 1_687_104,
        (Network::MainNetwork, NetworkUpgrade::Nu6) => 2_726_400,
        (Network::MainNetwork, NetworkUpgrade::Nu6_1) => 3_146_400,
        (Network::MainNetwork, NetworkUpgrade::Nu6_2) => 3_364_600,
        (Network::MainNetwork, NetworkUpgrade::Nu6_3) => 3_428_143,
        (Network::TestNetwork, NetworkUpgrade::Overwinter) => 207_500,
        (Network::TestNetwork, NetworkUpgrade::Sapling) => 280_000,
        (Network::TestNetwork, NetworkUpgrade::Blossom) => 584_000,
        (Network::TestNetwork, NetworkUpgrade::Heartwood) => 903_800,
        (Network::TestNetwork, NetworkUpgrade::Canopy) => 1_028_500,
        (Network::TestNetwork, NetworkUpgrade::Nu5) => 1_842_420,
        (Network::TestNetwork, NetworkUpgrade::Nu6) => 2_976_000,
        (Network::TestNetwork, NetworkUpgrade::Nu6_1) => 3_536_500,
        (Network::TestNetwork, NetworkUpgrade::Nu6_2) => 4_052_000,
        (Network::TestNetwork, NetworkUpgrade::Nu6_3) => 4_134_000,
    }
}

/// `Parameters::activation_height` of the stock networks of `zcash_protocol`: every
/// upgrade has the height that [`stock_height`] lists.
#[verifier::external_body]
fn stock_activation_height(network: Network, nu: NetworkUpgrade) -> (r: Option<u32>)
    ensures
        r == Some(stock_height(network, nu)),
{
    let upgrade = match nu {
        NetworkUpgrade::Overwinter => consensus::NetworkUpgrade::Overwinter,
        NetworkUpgrade::Sapling => consensus::NetworkUpgrade::Sapling,
        NetworkUpgrade::Blossom => consensus::NetworkUpgrade::Blossom,
        NetworkUpgrade::Heartwood => consensus::NetworkUpgrade::Heartwood,
        NetworkUpgrade::Canopy => consensus::NetworkUpgrade::Canopy,
        NetworkUpgrade::Nu5 => consensus::NetworkUpgrade::Nu5,
        NetworkUpgrade::Nu6 => consensus::NetworkUpgrade::Nu6,
        NetworkUpgrade::Nu6_1 => consensus::NetworkUpgrade::Nu6_1,
        NetworkUpgrade::Nu6_2 => consensus::NetworkUpgrade::Nu6_2,
        NetworkUpgrade::Nu6_3 => consensus::NetworkUpgrade::Nu6_3,
    };
    let params = match network { Network::MainNetwork => consensus::Network::MainNetwork, Network::TestNetwork => consensus::Network::TestNetwork };
    params.activation_height(upgrade).map(u32::from)
}

/// What decoding a unified full viewing key for a network type gives: nothing more
/// than success, or the words of the error.
pub uninterp spec fn ufvk_verdict(constants: NetworkType, encoding: Seq<char>) -> Result<
    (),
    Seq<char>,
>;

/// `UnifiedFullViewingKey::decode` of `zcash_keys` for parameters of the network
/// type, which are all that it reads of them. Which strings decode is left to
/// [`ufvk_verdict`].
#[verifier::external_body]
pub(crate) fn decode_ufvk(constants: NetworkType, encoding: &str) -> (r: Result<(), String>)
    ensures
        match r {
            Ok(_) => ufvk_verdict(constants, encoding@) is Ok,
            Err(e) => ufvk_verdict(constants, encoding@) == Err::<(), Seq<char>>(e@),
        },
{
    let regtest = LocalNetwork { overwinter: None, sapling: None, blossom: None, heartwood: None, canopy: None, nu5: None, nu6: None, nu6_1: None, nu6_2: None, nu6_3: None };
    match constants {
        NetworkType::Main => UnifiedFullViewingKey::decode(&consensus::MAIN_NETWORK, encoding).map(|_| ()),
        NetworkType::Test => UnifiedFullViewingKey::decode(&consensus::TEST_NETWORK, encoding).map(|_| ()),
        NetworkType::Regtest => UnifiedFullViewingKey::decode(&regtest, encoding).map(|_| ()),
    }
}

impl SlipstreamNetwork {
    /// Zcash mainnet.
    pub fn mainnet() -> (r: SlipstreamNetwork)
        ensures
            r == SlipstreamNetwork::Standard(Network::MainNetwork),
    {
        SlipstreamNetwork::Standard(Network::MainNetwork)
    }

    /// Zcash testnet.
    pub fn testnet() -> (r: SlipstreamNetwork)
        ensures
            r == SlipstreamNetwork::Standard(Network::TestNetwork),
    {
        SlipstreamNetwork::Standard(Network::TestNetwork)
    }

    /// The network type whose constants are used.
    pub open spec fn constants(self) -> NetworkType {
        match self {
            SlipstreamNetwork::Standard(Network::MainNetwork) => NetworkType::Main,
            SlipstreamNetwork::Standard(Network::TestNetwork) => NetworkType::Test,
            SlipstreamNetwork::Custom { constants, .. } => constants,
        }
    }

    /// The height at which an upgrade activates.
    pub open spec fn height_of(self, nu: NetworkUpgrade) -> Option<u32> {
        match self {
            SlipstreamNetwork::Standard(n) => Some(stock_height(n, nu)),
            SlipstreamNetwork::Custom { heights, .. } => heights.height_of(nu),
        }
    }

    /// The network type whose constants are used.
    pub fn network_type(&self) -> (r: NetworkType)
        ensures
            r == self.constants(),
    {
        match self {
            SlipstreamNetwork::Standard(Network::MainNetwork) => NetworkType::Main,
            SlipstreamNetwork::Standard(Network::TestNetwork) => NetworkType::Test,
            SlipstreamNetwork::Custom { constants, .. } => *constants,
        }
    }

    /// The height at which an upgrade activates, where it does.
    pub fn activation_height(&self, nu: NetworkUpgrade) -> (r: Option<u32>)
        ensures
            r == self.height_of(nu),
    {
        match self {
            SlipstreamNetwork::Standard(n) => stock_activation_height(*n, nu),
            SlipstreamNetwork::Custom { heights, .. } => match nu {
                NetworkUpgrade::Overwinter => heights.overwinter,
                NetworkUpgrade::Sapling => heights.sapling,
                NetworkUpgrade::Blossom => heights.blossom,
                NetworkUpgrade::Heartwood => heights.heartwood,
                NetworkUpgrade::Canopy => heights.canopy,
                NetworkUpgrade::Nu5 => heights.nu5,
                NetworkUpgrade::Nu6 => heights.nu6,
                NetworkUpgrade::Nu6_1 => heights.nu6_1,
                NetworkUpgrade::Nu6_2 => heights.nu6_2,
                NetworkUpgrade::Nu6_3 => None,
            },
        }
    }

    /// Whether a unified full viewing key decodes for this network; the words of the
    /// error where it does not.
    pub fn decode_viewing_key(&self, encoding: &str) -> (r: Result<(), String>)
        ensures
            match r {
                Ok(_) => ufvk_verdict(self.constants(), encoding@) is Ok,
                Err(e) => ufvk_verdict(self.constants(), encoding@) == Err::<(), Seq<char>>(e@),
            },
    {
        decode_ufvk(self.network_type(), encoding)
    }
}

impl From<Network> for SlipstreamNetwork {
    fn from(n: Network) -> (r: Self) {
        SlipstreamNetwork::Standard(n)
    }
}

impl vstd::std_specs::convert::FromSpecImpl<Network> for SlipstreamNetwork {
    open spec fn obeys_from_spec() -> bool {
        true
    }

    open spec fn from_spec(n: Network) -> SlipstreamNetwork {
        SlipstreamNetwork::Standard(n)
    }
}

/// A custom chain activates each upgrade at its own height, and the one it has no height for
/// never; a stock chain activates every upgrade, at the heights that are known of it.
pub proof fn law_upgrades_have_their_own_heights(
    constants: NetworkType,
    h: CustomActivations,
    n: Network,
    nu: NetworkUpgrade,
)
    ensures
        ({
            let c = SlipstreamNetwork::Custom { constants, heights: h };
            &&& c.height_of(NetworkUpgrade::Overwinter) == h.overwinter
            &&& c.height_of(NetworkUpgrade::Sapling) == h.sapling
            &&& c.height_of(NetworkUpgrade::Blossom) == h.blossom
            &&& c.height_of(NetworkUpgrade::Heartwood) == h.heartwood
            &&& c.height_of(NetworkUpgrade::Canopy) == h.canopy
            &&& c.height_of(NetworkUpgrade::Nu5) == h.nu5
            &&& c.height_of(NetworkUpgrade::Nu6) == h.nu6
            &&& c.height_of(NetworkUpgrade::Nu6_1) == h.nu6_1
            &&& c.height_of(NetworkUpgrade::Nu6_2) == h.nu6_2
            &&& c.height_of(NetworkUpgrade::Nu6_3) is None
            &&& c.constants() == constants
        }),
        SlipstreamNetwork::Standard(n).height_of(nu) == Some(stock_height(n, nu)),
        SlipstreamNetwork::Standard(Network::MainNetwork).constants() == NetworkType::Main,
        SlipstreamNetwork::Standard(Network::TestNetwork).constants() == NetworkType::Test,
{
}

/// The same height for all upgrades is that height for each of them.
pub proof fn law_uniform_heights(height: Option<u32>, nu: NetworkUpgrade)
    ensures
        nu != NetworkUpgrade::Nu6_3 ==> CustomActivations::uniform(height).height_of(nu) == height,
        CustomActivations::uniform(height).overwinter == height,
        CustomActivations::uniform(height).sapling == height,
        CustomActivations::uniform(height).nu6_2 == height,
{
}

/// Upgrades activate one after the other on the stock chains, each at its height.
pub proof fn law_stock_upgrades_are_ordered(n: Network)
    ensures
        stock_height(Network::MainNetwork, NetworkUpgrade::Overwinter) == 347_500,
        stock_height(Network::MainNetwork, NetworkUpgrade::Sapling) == 419_200,
        stock_height(Network::MainNetwork, NetworkUpgrade::Blossom) == 653_600,
        stock_height(Network::MainNetwork, NetworkUpgrade::Heartwood) == 903_000,
        stock_height(Network::MainNetwork, NetworkUpgrade::Canopy) == 1_046_400,
        stock_height(Network::MainNetwork, NetworkUpgrade::Nu5) == 1_687_104,
        stock_height(Network::MainNetwork, NetworkUpgrade::Nu6) == 2_726_400,
        stock_height(Network::MainNetwork, NetworkUpgrade::Nu6_1) == 3_146_400,
        stock_height(Network::MainNetwork, NetworkUpgrade::Nu6_2) == 3_364_600,
        stock_height(Network::MainNetwork, NetworkUpgrade::Nu6_3) == 3_428_143,
        stock_height(Network::TestNetwork, NetworkUpgrade::Overwinter) == 207_500,
        stock_height(Network::TestNetwork, NetworkUpgrade::Sapling) == 280_000,
        stock_height(Network::TestNetwork, NetworkUpgrade::Blossom) == 584_000,
        stock_height(Network::TestNetwork, NetworkUpgrade::Heartwood) == 903_800,
        stock_height(Network::TestNetwork, NetworkUpgrade::Canopy) == 1_028_500,
        stock_height(Network::TestNetwork, NetworkUpgrade::Nu5) == 1_842_420,
        stock_height(Network::TestNetwork, NetworkUpgrade::Nu6) == 2_976_000,
        stock_height(Network::TestNetwork, NetworkUpgrade::Nu6_1) == 3_536_500,
        stock_height(Network::TestNetwork, NetworkUpgrade::Nu6_2) == 4_052_000,
        stock_height(Network::TestNetwork, NetworkUpgrade::Nu6_3) == 4_134_000,
        stock_height(n, NetworkUpgrade::Overwinter) < stock_height(n, NetworkUpgrade::Sapling)
            < stock_height(n, NetworkUpgrade::Blossom) < stock_height(n, NetworkUpgrade::Heartwood)
            < stock_height(n, NetworkUpgrade::Canopy) < stock_height(n, NetworkUpgrade::Nu5)
            < stock_height(n, NetworkUpgrade::Nu6) < stock_height(n, NetworkUpgrade::Nu6_1)
            < stock_height(n, NetworkUpgrade::Nu6_2) < stock_height(n, NetworkUpgrade::Nu6_3),
{
}

} // verus!
