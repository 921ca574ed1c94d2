use streamkeys::prometheus::{ExporterNode, MinioConfig, PrometheusConfig, PrometheusGen};
use streamkeys::text::push_decimal;

fn node(address: &str, exporter_port: u16) -> ExporterNode {
    ExporterNode { address: address.to_string(), exporter_port }
}

#[test]
fn prometheus_yml() {
    let config = PrometheusConfig {
        address: "127.0.0.1".to_string(),
        port: 9500,
        provide_compute_node: Some(vec![node("a", 1222), node("b", 1223), node("c", 0)]),
        provide_meta_node: Some(vec![node("127.0.0.1", 1250)]),
        provide_minio: Some(vec![MinioConfig { address: "m".to_string(), port: 9301 }]),
        provide_compactor: Some(vec![]),
    };
    let expected = r#"# --- THIS FILE IS AUTO GENERATED BY RISEDEV ---
global:
  scrape_interval: 1s
  evaluation_interval: 5s

scrape_configs:
  - job_name: "prometheus"
    static_configs:
      - targets: ["127.0.0.1:9500"]

  - job_name: compute-job
    static_configs:
      - targets: ["a:1222","b:1223","c:0"]

  - job_name: meta-job
    static_configs:
      - targets: ["127.0.0.1:1250"]
  
  - job_name: minio-job
    metrics_path: /minio/v2/metrics/cluster
    static_configs:
    - targets: ["m:9301"]

  - job_name: compactor-job
    static_configs:
      - targets: []
"#;
    assert_eq!(PrometheusGen.gen_prometheus_yml(&config), expected);
}

#[test]
fn numbers_in_decimal() {
    for n in [0, 7, 10, 65_535, 1_234_567_890, u64::MAX] {
        let mut text = String::from("n=");
        push_decimal(&mut text, n);
        assert_eq!(text, format!("n={n}"));
    }
}
