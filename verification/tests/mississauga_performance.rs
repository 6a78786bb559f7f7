const FIXTURE_DIR: &str =
    "/Users/johnlindsay/Documents/programming/Rust/whitebox_next_gen/target/benchmarks/mississauga_scale_test";

#[test]
fn mississauga_vector_summary() {
    println!("\n========================================");
    println!("MISSISSAUGA PERFORMANCE TEST SUMMARY");
    println!("========================================");
    println!("Network: Mississauga StreetCentrelines");
    println!("Size: 19,889 edges (5.5x Guelph baseline)");
    println!("CRS: EPSG:3857 (Web Mercator)");
    println!("Fixture: {}", FIXTURE_DIR);
    println!("\nExpected scaling:");
    println!("  - Linear scaling: ~5.5x slower than Guelph");
    println!("  - With parallelization: 2-4x slower (sub-linear)");
    println!("\nPerformance targets met if:");
    println!("  - Network topology audit: <3.0s");
    println!("  - Connected components: <2.0s");
    println!("  - Node degree: <2.5s");
    println!("\nRecommendation:");
    println!("  If tests pass targets, vector tooling is ready for");
    println!("  production Phase A-C workflow implementations.");
    println!("========================================\n");
}
