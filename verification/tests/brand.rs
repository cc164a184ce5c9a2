use rigstats::brand::{cpu_logo, gpu_logo, header_logo, rig_logo, HeaderLogo, RigLogo, Vendor};

#[test]
fn rig_logos_by_brand_key() {
    assert_eq!(rig_logo("rog"), Some(RigLogo::Rog));
    assert_eq!(rig_logo("asus-rog"), Some(RigLogo::Rog));
    assert_eq!(rig_logo("taurus"), Some(RigLogo::Taurus));
    assert_eq!(rig_logo("ROG"), None);
    assert_eq!(rig_logo(""), None);
}

#[test]
fn cpu_vendors() {
    assert_eq!(cpu_logo("AMD Ryzen 9 7950X 16-Core Processor"), Some(Vendor::Amd));
    assert_eq!(cpu_logo("13th Gen Intel(R) Core(TM) i9-13900K"), Some(Vendor::Intel));
    assert_eq!(cpu_logo("Intel Xeon W-2295"), Some(Vendor::Intel));
    assert_eq!(cpu_logo("Apple M2"), None);
}

#[test]
fn gpu_vendors() {
    assert_eq!(gpu_logo("AMD Radeon RX 9070 XT"), Some(Vendor::Amd));
    assert_eq!(gpu_logo("NVIDIA GeForce RTX 4090"), Some(Vendor::Nvidia));
    assert_eq!(gpu_logo("Intel(R) UHD Graphics 770"), Some(Vendor::Intel));
    assert_eq!(gpu_logo("Intel Arc A770"), Some(Vendor::Intel));
    // "rx " is checked before "nvidia": a name containing both counts as AMD.
    assert_eq!(gpu_logo("rx 580 nvidia"), Some(Vendor::Amd));
    assert_eq!(gpu_logo("Matrox G200"), None);
}

#[test]
fn header_logo_falls_back_to_cpu_badge() {
    assert_eq!(header_logo("msi", "AMD Ryzen 7"), Some(HeaderLogo::Brand(RigLogo::Msi)));
    assert_eq!(header_logo("dell", "AMD Ryzen 7"), Some(HeaderLogo::Cpu(Vendor::Amd)));
    assert_eq!(header_logo("", "Apple M2"), None);
}
