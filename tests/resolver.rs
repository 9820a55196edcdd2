use mirror_sync::asset::resolve;
use mirror_sync::asset_manifest::{asset_indexes, asset_url, AssetIndex, ASSET_REPO_URL};
use mirror_sync::main_manifest::{manifests, sync, Manifest, MANIFEST_URL};
use mirror_sync::mapping::ReconciliationSet;
use mirror_sync::version_manifest::{FileRef, LibDownload, Library, Logging, Version};
use mirror_sync::Sha1;

fn h(n: u8) -> Sha1 {
    Sha1([n; 20])
}

fn fr(url: &str, n: u8) -> FileRef {
    FileRef { url: url.to_string(), sha1: h(n) }
}

fn pairs(v: &Vec<(String, Sha1)>) -> Vec<(String, u8)> {
    v.iter().map(|(u, s)| (u.clone(), s.0[0])).collect()
}

fn sample_version() -> Version {
    Version {
        asset_index: fr("https://h/indexes/1.json", 9),
        downloads: vec![("client".to_string(), fr("https://h/client.jar", 1))],
        libraries: vec![
            Library { downloads: LibDownload { artifact: Some(fr("https://h/lib-a.jar", 2)), classifiers: None } },
            Library {
                downloads: LibDownload {
                    artifact: None,
                    classifiers: Some(vec![("natives-linux".to_string(), fr("https://h/lib-b-linux.jar", 3))]),
                },
            },
        ],
        logging: Some(vec![("client".to_string(), Logging { file: fr("https://h/log.xml", 4) })]),
    }
}

#[test]
fn asset_address_of_deadbeef() {
    let mut b = [0u8; 20];
    b[0] = 0xde;
    b[1] = 0xad;
    b[2] = 0xbe;
    b[3] = 0xef;
    let expected = format!("{}de/deadbeef{}", ASSET_REPO_URL, "0".repeat(32));
    assert_eq!(asset_url(&Sha1(b)), expected);
    assert_eq!(
        asset_url(&Sha1(b)),
        "https://resources.download.minecraft.net/de/deadbeef00000000000000000000000000000000"
    );
}

#[test]
fn asset_address_is_stable_and_distinct() {
    assert_eq!(asset_url(&h(0xab)), asset_url(&h(0xab)));
    let mut other = [0xab; 20];
    other[19] = 0xac;
    assert_ne!(asset_url(&h(0xab)), asset_url(&Sha1(other)));
}

#[test]
fn asset_index_urls() {
    let idx = AssetIndex { objects: vec![("a".to_string(), h(0x01)), ("b".to_string(), h(0xff))] };
    let u = idx.urls();
    assert_eq!(u.len(), 2);
    assert_eq!(u[0].0, format!("{}01/{}", ASSET_REPO_URL, "01".repeat(20)));
    assert_eq!(u[1].0, format!("{}ff/{}", ASSET_REPO_URL, "ff".repeat(20)));
    assert_eq!(u[1].1, h(0xff));
}

#[test]
fn version_links_cover_all_sections() {
    let v = sample_version();
    assert_eq!(
        pairs(&v.links()),
        vec![
            ("https://h/client.jar".to_string(), 1),
            ("https://h/lib-a.jar".to_string(), 2),
            ("https://h/lib-b-linux.jar".to_string(), 3),
            ("https://h/log.xml".to_string(), 4),
        ]
    );
    assert_eq!(v.asset_index(), ("https://h/indexes/1.json".to_string(), h(9)));
}

#[test]
fn version_without_optional_sections() {
    let v = Version { asset_index: fr("https://h/i.json", 9), downloads: vec![], libraries: vec![], logging: None };
    assert!(v.links().is_empty());
}

#[test]
fn reconciliation_set_deduplicates() {
    let mut s = ReconciliationSet::new();
    s.insert("https://h/a".to_string(), h(1));
    s.insert("https://h/b".to_string(), h(2));
    s.insert("https://h/a".to_string(), h(3));
    assert_eq!(s.len(), 2);
    assert_eq!(pairs(s.entries()), vec![("https://h/a".to_string(), 3), ("https://h/b".to_string(), 2)]);
    s.extend(&vec![("https://h/c".to_string(), h(4)), ("https://h/b".to_string(), h(5))]);
    assert_eq!(
        pairs(s.entries()),
        vec![("https://h/a".to_string(), 3), ("https://h/b".to_string(), 5), ("https://h/c".to_string(), 4)]
    );
}

#[test]
fn resolve_unions_releases_and_assets() {
    let v1 = sample_version();
    let v2 = Version {
        asset_index: fr("https://h/indexes/2.json", 8),
        downloads: vec![("client".to_string(), fr("https://h/client2.jar", 5))],
        libraries: vec![Library { downloads: LibDownload { artifact: Some(fr("https://h/lib-a.jar", 2)), classifiers: None } }],
        logging: None,
    };
    let shared = ("shared".to_string(), h(0x11));
    let i1 = AssetIndex { objects: vec![shared.clone(), ("x".to_string(), h(0x22))] };
    let i2 = AssetIndex { objects: vec![shared.clone()] };
    let s = resolve(&vec![v1, v2], &vec![i1, i2]);
    assert_eq!(s.len(), 7);
    let urls: Vec<String> = s.entries().iter().map(|e| e.0.clone()).collect();
    assert!(urls.contains(&asset_url(&h(0x11))));
    assert!(urls.contains(&"https://h/client2.jar".to_string()));
}

#[test]
fn index_and_root_sets() {
    let s = asset_indexes(&vec![sample_version(), sample_version()]);
    assert_eq!(pairs(s.entries()), vec![("https://h/indexes/1.json".to_string(), 9)]);
    let m = Manifest { versions: vec![fr("https://h/v1.json", 1), fr("https://h/v2.json", 2)] };
    assert_eq!(
        pairs(manifests(&m).entries()),
        vec![("https://h/v1.json".to_string(), 1), ("https://h/v2.json".to_string(), 2)]
    );
}

#[test]
fn root_fetch_list() {
    let v = sync().unwrap();
    assert_eq!(v.len(), 1);
    assert_eq!(v[0].0, MANIFEST_URL);
    assert_eq!(v[0].1.display(), "piston-meta.mojang.com/mc/game/version_manifest_v2.json");
}
