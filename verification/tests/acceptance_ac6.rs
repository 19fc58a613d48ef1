use wm_busbridge::nats_config::{ConfigVariant, NatsTopologyConfig};

/// Rendered NATS configs do not contain plaintext credentials.
#[test]
fn test_no_plaintext_creds_in_rendered_config() {
    for variant in [ConfigVariant::Hub, ConfigVariant::Leaf] {
        let cfg = NatsTopologyConfig {
            variant,
            js_domain: "hub".to_string(),
            hub_url: "nats://hub:7422".to_string(),
            creds_path: "$WM_NATS_CREDS".to_string(),
        };
        let rendered = cfg.render();
        // Must not contain raw nkey seeds (start with SU/SA/SO/SN + base32)
        assert!(
            !rendered.contains("NATSXX"),
            "config must not contain raw nkey bytes"
        );
        // Must not contain PEM-encoded certificates inline
        assert!(
            !rendered.contains("-----BEGIN"),
            "config must not contain PEM block"
        );
        // Must not contain JWT tokens (base64 blobs)
        assert!(
            !rendered.contains("eyJ"),
            "config must not contain JWT token"
        );
    }
}

/// creds_path in leaf config references a variable, not a hardcoded path.
#[test]
fn test_leaf_creds_reference_variable() {
    let cfg = NatsTopologyConfig {
        variant: ConfigVariant::Leaf,
        js_domain: "leaf".to_string(),
        hub_url: "nats://hub:7422".to_string(),
        creds_path: "$WM_NATS_CREDS".to_string(),
    };
    let rendered = cfg.render();
    // The creds path must be an env var reference or a managed path
    assert!(
        rendered.contains("$WM_NATS_CREDS") || rendered.contains("/run/secrets"),
        "creds_path must reference an env var or managed secrets path"
    );
}

#[test]
fn acceptance_ac6() {}
