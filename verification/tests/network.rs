//! Networks.
use zodl_slipstream::network::{
    CustomActivations, Network, NetworkType, NetworkUpgrade, SlipstreamNetwork,
};

/// Wallet #36 from the valargroup Ironwood testnet faucet — a disposable testnet
/// fixture. Encoded with MAINNET constants; the whole point of
/// `Custom { constants: Main, … }`.
const IRONWOOD_TESTNET_FIXTURE_UFVK: &str = "uview1fc4n4zlrfrvuh80g6nwulcv9wlq77jyt04un9mqh63dcm33u0vag6v0r9jnyuvfwm8akcp5kjf4fzf7kl0gz0a8qg3q7zhqz7nufkjuhas6meege00a4l9vjq8apfq5ufnsesr6en2zh02gutf8eu7px3zv32se5stk25w44hctlju745dn64pdk36q6ey0ler4cey0rwxfc6px7zeq7f2tppnux3h2kkjdrczjy2nk278yg3klv8m0jywze5nldf84awnqdqzhve78k2zffla2mze352xprnccv8tf2axvy9svf9jgj6dh0qzch56u27knnu589cdvf9tepnpvudc8rr008jkaxlw4uehwhsehmr8np2mnwg9uceaq7lv8cl5yz0ezc02eht8gqyw7sp9z28acdeexumnk0s8c9l88uc3u3r0j448mf73fn93xf05024zhm4whu2ez238yt3zfyyjc3nlvx9c7tkqgm3dlk8gkw2uqp7mrg";

#[test]
fn standard_delegates_to_stock_parameters() {
    let main = SlipstreamNetwork::mainnet();
    assert_eq!(main.network_type(), NetworkType::Main);
    assert_eq!(main.activation_height(NetworkUpgrade::Sapling), Some(419_200));
    let test = SlipstreamNetwork::from(Network::TestNetwork);
    assert_eq!(test.network_type(), NetworkType::Test);
    assert_eq!(test.activation_height(NetworkUpgrade::Sapling), Some(280_000));
    // Every upgrade, against the stock parameters themselves.
    let upgrades = [
        (NetworkUpgrade::Overwinter, zcash_protocol::consensus::NetworkUpgrade::Overwinter),
        (NetworkUpgrade::Sapling, zcash_protocol::consensus::NetworkUpgrade::Sapling),
        (NetworkUpgrade::Blossom, zcash_protocol::consensus::NetworkUpgrade::Blossom),
        (NetworkUpgrade::Heartwood, zcash_protocol::consensus::NetworkUpgrade::Heartwood),
        (NetworkUpgrade::Canopy, zcash_protocol::consensus::NetworkUpgrade::Canopy),
        (NetworkUpgrade::Nu5, zcash_protocol::consensus::NetworkUpgrade::Nu5),
        (NetworkUpgrade::Nu6, zcash_protocol::consensus::NetworkUpgrade::Nu6),
        (NetworkUpgrade::Nu6_1, zcash_protocol::consensus::NetworkUpgrade::Nu6_1),
        (NetworkUpgrade::Nu6_2, zcash_protocol::consensus::NetworkUpgrade::Nu6_2),
    ];
    for (nu, stock) in upgrades {
        for (net, params) in [
            (&main, zcash_protocol::consensus::Network::MainNetwork),
            (&test, zcash_protocol::consensus::Network::TestNetwork),
        ] {
            assert_eq!(
                net.activation_height(nu),
                zcash_protocol::consensus::Parameters::activation_height(&params, stock)
                    .map(u32::from),
                "{nu:?}"
            );
        }
    }
}

#[test]
fn custom_reports_configured_heights_and_constants() {
    let net = SlipstreamNetwork::Custom {
        constants: NetworkType::Main,
        heights: CustomActivations {
            nu6_2: Some(5000),
            ..CustomActivations::all_from_genesis()
        },
    };
    assert_eq!(net.network_type(), NetworkType::Main);
    assert_eq!(net.activation_height(NetworkUpgrade::Sapling), Some(1));
    assert_eq!(net.activation_height(NetworkUpgrade::Nu6_2), Some(5000));

    let sparse = SlipstreamNetwork::Custom {
        constants: NetworkType::Main,
        heights: CustomActivations::default(),
    };
    assert_eq!(sparse.activation_height(NetworkUpgrade::Sapling), None);
}

#[test]
fn custom_main_constants_decode_the_ironwood_fixture_ufvk() {
    let net = SlipstreamNetwork::Custom {
        constants: NetworkType::Main,
        heights: CustomActivations::all_from_genesis(),
    };
    net.decode_viewing_key(IRONWOOD_TESTNET_FIXTURE_UFVK)
        .expect("main-constants custom params decode the fixture UFVK");

    SlipstreamNetwork::testnet()
        .decode_viewing_key(IRONWOOD_TESTNET_FIXTURE_UFVK)
        .expect_err("stock testnet params must reject the mainnet-encoded UFVK");
}
