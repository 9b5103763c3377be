use t15_fundraiser::config::{flag, required, var, CatalogPaths, Config};

fn env(pairs: &[(&str, &str)]) -> Vec<(String, String)> {
    pairs.iter().map(|(k, v)| (k.to_string(), v.to_string())).collect()
}

fn base() -> Vec<(String, String)> {
    env(&[
        ("BASE_URL", "https://fundraiser.test//"),
        ("STRIPE_SECRET_KEY", "sk_test_123"),
        ("STRIPE_WEBHOOK_SECRET", "whsec_123"),
    ])
}

#[test]
fn config_defaults_and_trimmed_base_url() {
    let c = Config::from_env(&base()).unwrap();
    assert_eq!(c.base_url, "https://fundraiser.test");
    assert_eq!(c.bind_addr, "127.0.0.1:8080");
    assert_eq!(c.database_path, "./data/fundraiser.db");
    assert_eq!(c.catalog_path, "./catalog.yaml");
    assert_eq!(c.static_dir, "./static");
    assert_eq!(c.frontend_dir, "./frontend/dist");
    assert_eq!(c.stripe_secret_key, "sk_test_123");
    assert_eq!(c.stripe_webhook_secret, "whsec_123");
    assert!(!c.trust_proxy && !c.allow_missing_images);
}

#[test]
fn config_errors_in_order() {
    let e = Config::from_env(&env(&[])).err().unwrap();
    assert_eq!(e.message, "missing required environment variable BASE_URL");
    let mut v = base();
    v[0].1 = "ftp://x".into();
    assert_eq!(Config::from_env(&v).err().unwrap().message, "BASE_URL must start with http:// or https://");
    let mut v = base();
    v[1].1 = "pk_test".into();
    assert_eq!(
        Config::from_env(&v).err().unwrap().message,
        "STRIPE_SECRET_KEY must be a Stripe secret (sk_...) or restricted (rk_...) key"
    );
    let mut v = base();
    v[2].1 = String::new();
    assert_eq!(
        Config::from_env(&v).err().unwrap().message,
        "missing required environment variable STRIPE_WEBHOOK_SECRET"
    );
}

#[test]
fn flags_and_empty_values() {
    let v = env(&[("A", "1"), ("B", "true"), ("C", "yes"), ("D", "on"), ("E", "")]);
    assert!(flag(&v, "A") && flag(&v, "B") && flag(&v, "C"));
    assert!(!flag(&v, "D") && !flag(&v, "E") && !flag(&v, "F"));
    assert_eq!(var(&v, "E"), None);
    assert_eq!(var(&v, "D").as_deref(), Some("on"));
    assert!(required(&v, "E").is_err());
}

#[test]
fn catalog_paths_from_env() {
    let p = CatalogPaths::from_env(&env(&[("STATIC_DIR", "/srv/static"), ("ALLOW_MISSING_IMAGES", "1")]));
    assert_eq!(p.catalog_path, "./catalog.yaml");
    assert_eq!(p.images_dir, "/srv/static/images");
    assert!(!p.check_images);
    let p = CatalogPaths::from_env(&env(&[]));
    assert_eq!(p.images_dir, "./static/images");
    assert!(p.check_images);
    let c = Config::from_env(&{
        let mut v = base();
        v.push(("TRUST_PROXY".into(), "yes".into()));
        v.push(("DATABASE_PATH".into(), "/var/db.sqlite".into()));
        v
    })
    .unwrap();
    assert!(c.trust_proxy);
    assert_eq!(Config::database_path_from_env(&env(&[("DATABASE_PATH", "/var/db.sqlite")])), "/var/db.sqlite");
    assert_eq!(c.database_path, "/var/db.sqlite");
}
