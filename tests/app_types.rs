use svm_storage::receipt::{DeployTemplateError, TemplateReceipt};
use svm_storage::app_types::{Address, App, TemplateAddr};
use svm_storage::values::{alloc_wasm_values, wasm_values_capacity};

fn sample() -> App {
    let mut bytes = [0u8; 20];
    for (i, b) in bytes.iter_mut().enumerate() {
        *b = i as u8 * 17;
    }
    App { name: "my-app".to_string(), template: TemplateAddr(Address(bytes)) }
}

#[test]
fn app_formatting() {
    let app = sample();
    assert_eq!(app.fmt_name("my-app"), "Name: my-app");
    assert_eq!(app.fmt_address(&app.template.0), "00112233 10213243");
    assert_eq!(app.fmt_template(&app.template), "Template: 00112233 10213243");
    assert_eq!(app.describe(), "Name: my-app\nTemplate: 00112233 10213243\n");
}

#[test]
fn wasm_values_buffer_sizes() {
    assert_eq!(wasm_values_capacity(0), 1);
    assert_eq!(wasm_values_capacity(3), 28);
    assert_eq!(wasm_values_capacity(255), 2296);
    assert_eq!(alloc_wasm_values(2), vec![0u8; 19]);
}

#[test]
fn template_receipts() {
    let addr = sample().template;
    let ok = TemplateReceipt::new(addr, 10);
    assert!(ok.success);
    assert_eq!(ok.get_template_addr(), &addr);
    assert_eq!(ok.gas_used, Some(10));
    let failed = TemplateReceipt::from(DeployTemplateError { reason: "bad".to_string() });
    assert!(!failed.success);
    assert_eq!(failed.addr, None);
    assert_eq!(failed.error, Some(DeployTemplateError { reason: "bad".to_string() }));
}
