use std::cell::Cell;
use sysmon::icon::{bgra_to_rgba, rgba_to_png_base64};
use sysmon::processes::{get_icon_cached, get_process_list, ProcessSample, StringHashMap};

#[test]
fn icon_cache_loads_once_per_path() {
    let calls = Cell::new(0u32);
    let load = |p: &str| {
        calls.set(calls.get() + 1);
        if p.ends_with(".exe") { Some(format!("icon:{}", p)) } else { None }
    };
    let mut cache: StringHashMap<Option<String>> = StringHashMap::new();
    assert_eq!(get_icon_cached(&mut cache, "C:\\a.exe", &load), Some("icon:C:\\a.exe".to_string()));
    assert_eq!(calls.get(), 1);
    assert_eq!(get_icon_cached(&mut cache, "C:\\a.exe", &load), Some("icon:C:\\a.exe".to_string()));
    assert_eq!(calls.get(), 1);
    // A missing icon is remembered too.
    assert_eq!(get_icon_cached(&mut cache, "C:\\b.dll", &load), None);
    assert_eq!(get_icon_cached(&mut cache, "C:\\b.dll", &load), None);
    assert_eq!(calls.get(), 2);
    assert_eq!(cache.len(), 2);
}

#[test]
fn cached_answer_wins_over_loader() {
    let mut cache: StringHashMap<Option<String>> = StringHashMap::new();
    cache.insert("p".to_string(), Some("old".to_string()));
    let r = get_icon_cached(&mut cache, "p", |_p: &str| Some("new".to_string()));
    assert_eq!(r, Some("old".to_string()));
}

fn sample(pid: u32, name: &str, mem: u64, disk: u64, exe: Option<&str>) -> ProcessSample<f32> {
    ProcessSample {
        pid,
        name: name.to_string(),
        cpu: pid as f32 / 2.0,
        memory: mem,
        disk_read: disk,
        exe_path: exe.map(|s| s.to_string()),
    }
}

#[test]
fn process_list_describes_each_sample() {
    let calls = Cell::new(0u32);
    let load = |p: &str| {
        calls.set(calls.get() + 1);
        Some(format!("png:{}", p))
    };
    let samples = vec![
        sample(4, "System", 1536, 0, None),
        sample(100, "app.exe", 5 * 1024 * 1024, 1 << 30, Some("C:\\app.exe")),
        sample(101, "app.exe", 10, 2048, Some("C:\\app.exe")),
        sample(7, "svc.exe", 1 << 40, 1023, Some("C:\\svc.exe")),
    ];
    let mut cache: StringHashMap<Option<String>> = StringHashMap::new();
    let rows = get_process_list(&samples, &mut cache, &load);
    assert_eq!(rows.len(), 4);
    assert_eq!(calls.get(), 2);
    assert_eq!(rows[0].pid, 4);
    assert_eq!(rows[0].name, "System");
    assert_eq!(rows[0].memory_h, "1.5 KB");
    assert_eq!(rows[0].disk_usage_h, "0 B");
    assert_eq!(rows[0].icon, None);
    assert_eq!(rows[0].exe_path, None);
    assert_eq!(rows[1].memory_h, "5.0 MB");
    assert_eq!(rows[1].disk_usage, 1 << 30);
    assert_eq!(rows[1].disk_usage_h, "1.0 GB");
    assert_eq!(rows[1].icon, Some("png:C:\\app.exe".to_string()));
    assert_eq!(rows[1].cpu, 50.0);
    assert_eq!(rows[2].icon, Some("png:C:\\app.exe".to_string()));
    assert_eq!(rows[2].memory_h, "10 B");
    assert_eq!(rows[3].memory_h, "1.0 TB");
    assert_eq!(rows[3].disk_usage_h, "1023 B");
    assert_eq!(rows[3].exe_path, Some("C:\\svc.exe".to_string()));
    assert_eq!(cache.len(), 2);
}

#[test]
fn bgra_becomes_rgba() {
    let mut buf = vec![1u8, 2, 3, 4, 5, 6, 7, 8, 9, 10];
    bgra_to_rgba(&mut buf);
    assert_eq!(buf, vec![3, 2, 1, 4, 7, 6, 5, 8, 9, 10]);
    bgra_to_rgba(&mut buf);
    assert_eq!(buf, vec![1, 2, 3, 4, 5, 6, 7, 8, 9, 10]);
}

#[test]
fn png_data_url_for_small_bitmap() {
    let rgba = vec![255u8, 0, 0, 255, 0, 255, 0, 255, 0, 0, 255, 255, 9, 9, 9, 0];
    let url = rgba_to_png_base64(rgba, 2, 2).expect("encodes");
    assert!(url.starts_with("data:image/png;base64,"));
    // The PNG signature in base64.
    assert!(url["data:image/png;base64,".len()..].starts_with("iVBORw0KGgo"));
    assert!(url.len() > "data:image/png;base64,iVBORw0KGgo".len());
}

#[test]
fn png_data_url_needs_whole_bitmap() {
    assert_eq!(rgba_to_png_base64(vec![0u8; 15], 2, 2), None);
    // A longer buffer is accepted.
    assert!(rgba_to_png_base64(vec![0u8; 17], 2, 2).is_some());
}


#[test]
fn png_data_url_prefixes_text() {
    assert_eq!(sysmon::icon::png_data_url("QUJD"), "data:image/png;base64,QUJD");
    assert_eq!(sysmon::icon::png_data_url(""), "data:image/png;base64,");
}

#[test]
fn png_data_url_refuses_empty_dimensions() {
    assert_eq!(rgba_to_png_base64(Vec::new(), 0, 0), None);
    assert_eq!(rgba_to_png_base64(vec![1u8; 8], 0, 2), None);
    assert_eq!(rgba_to_png_base64(vec![1u8; 8], 2, 0), None);
}
