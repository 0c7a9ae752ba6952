use audio_io::utils::{
    find_input_device_by_name, find_output_device_by_name, list_input_devices, list_output_devices,
};

fn names() -> Vec<Option<String>> {
    vec![Some("Mic".to_string()), None, Some("USB".to_string()), Some("Mic".to_string())]
}

#[test]
fn list_devices_skips_unreadable_names() {
    assert_eq!(list_input_devices(Ok(names())), Ok(vec!["Mic".to_string(), "USB".to_string(), "Mic".to_string()]));
    assert_eq!(list_output_devices(Ok(vec![])), Ok(vec![]));
}

#[test]
fn list_devices_errors() {
    assert_eq!(list_input_devices(Err("boom".to_string())), Err("枚举输入设备失败: boom".to_string()));
    assert_eq!(list_output_devices(Err("x".to_string())), Err("枚举输出设备失败: x".to_string()));
}

#[test]
fn find_devices() {
    assert_eq!(find_input_device_by_name(Ok(names()), "Mic"), Ok(0));
    assert_eq!(find_output_device_by_name(Ok(names()), "USB"), Ok(2));
    assert_eq!(
        find_input_device_by_name(Ok(names()), "不存在的设备"),
        Err("未找到设备: 不存在的设备".to_string())
    );
    assert_eq!(
        find_output_device_by_name(Err("e".to_string()), "USB"),
        Err("枚举输出设备失败: e".to_string())
    );
}
