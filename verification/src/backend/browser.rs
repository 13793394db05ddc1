//! What the browser harness reports about a run.
use vstd::prelude::*;

verus! {

/// The browser the harness found and what it offers.
#[derive(Debug)]
pub struct BrowserCapability {
    pub firefox_version: String,
    pub navigator_gpu: bool,
    pub extension_loaded: bool,
    pub native_messaging_connected: bool,
}

/// What a scenario run in the browser proved.
#[derive(Debug)]
pub struct BrowserScenarioProof {
    pub example: String,
    pub firefox_version: String,
    pub navigator_gpu: bool,
    pub extension_loaded: bool,
    pub native_messaging_connected: bool,
    pub test_api_available: bool,
    pub test_api_rgba_capture_available: bool,
    pub test_api_rgba_hash: Option<String>,
    pub test_api_rgba_byte_length: usize,
    pub test_api_rgba_distinct_sampled_colors: usize,
    pub scenario_action_count: usize,
    pub scenario_actions_accepted: bool,
    pub wasm_loaded: bool,
    pub wasm_runner_ok: bool,
    pub wasm_source_count: usize,
    pub wasm_snapshot_values: usize,
    pub wasm_snapshot_matches: bool,
    pub wasm_source_inventory_matches: bool,
    pub wasm_frame_hash: Option<String>,
    pub adapter_requested: bool,
    pub device_requested: bool,
    pub gpu_buffer_bytes: usize,
    pub source_count: usize,
    pub frame_hash: Option<String>,
    pub timing_passed: bool,
    pub visible_screenshot_png_data_url: Option<String>,
    pub visible_screenshot_source: Option<String>,
    pub errors: Vec<String>,
}

/// The name under which the page exposes its test API.
pub open spec fn test_api_name() -> Seq<char> {
    "window.__boonTest"@
}

/// The global that the page's test API is installed under.
pub fn test_api_symbol() -> (r: &'static str)
    ensures
        r@ == test_api_name(),
{
    "window.__boonTest"
}

/// The page that checks whether the browser offers WebGPU and the
/// extension, and posts what it found back to the harness.
pub open spec fn doctor_page() -> Seq<char> {
    r#"<!doctype html>
<meta charset="utf-8">
<title>Boon Firefox WebGPU Doctor</title>
<body>Boon Firefox WebGPU Doctor</body>
<script>
(async () => {
  const result = {
    extension_loaded: false,
    navigator_gpu: !!navigator.gpu,
    adapter_requested: false,
    device_requested: false,
    native_response: null,
    user_agent: navigator.userAgent,
    errors: []
  };
  try {
    if (navigator.gpu) {
      const adapter = await navigator.gpu.requestAdapter();
      result.adapter_requested = !!adapter;
      if (adapter) {
        const device = await adapter.requestDevice();
        result.device_requested = !!device;
        if (device && device.destroy) {
          device.destroy();
        }
      }
    }
  } catch (error) {
    result.errors.push(String(error && error.stack || error));
  }
  for (let i = 0; i < 200; i++) {
    if (window.__boonExtension) {
      result.extension_loaded = true;
      break;
    }
    await new Promise(resolve => setTimeout(resolve, 50));
  }
  if (window.__boonExtension) {
    try {
      result.native_response = await window.__boonExtension.native({ type: "browser-doctor-result", result });
    } catch (error) {
      result.errors.push(String(error && error.stack || error));
    }
  }
  try {
    await fetch("/page-result", {
      method: "POST",
      headers: { "Content-Type": "application/json" },
      body: JSON.stringify(result)
    });
  } catch (_) {}
  document.body.textContent = JSON.stringify(result);
})();
</script>
"#@
}

/// The page that checks the browser's WebGPU support.
pub fn doctor_html() -> (r: String)
    ensures
        r@ == doctor_page(),
{
    r#"<!doctype html>
<meta charset="utf-8">
<title>Boon Firefox WebGPU Doctor</title>
<body>Boon Firefox WebGPU Doctor</body>
<script>
(async () => {
  const result = {
    extension_loaded: false,
    navigator_gpu: !!navigator.gpu,
    adapter_requested: false,
    device_requested: false,
    native_response: null,
    user_agent: navigator.userAgent,
    errors: []
  };
  try {
    if (navigator.gpu) {
      const adapter = await navigator.gpu.requestAdapter();
      result.adapter_requested = !!adapter;
      if (adapter) {
        const device = await adapter.requestDevice();
        result.device_requested = !!device;
        if (device && device.destroy) {
          device.destroy();
        }
      }
    }
  } catch (error) {
    result.errors.push(String(error && error.stack || error));
  }
  for (let i = 0; i < 200; i++) {
    if (window.__boonExtension) {
      result.extension_loaded = true;
      break;
    }
    await new Promise(resolve => setTimeout(resolve, 50));
  }
  if (window.__boonExtension) {
    try {
      result.native_response = await window.__boonExtension.native({ type: "browser-doctor-result", result });
    } catch (error) {
      result.errors.push(String(error && error.stack || error));
    }
  }
  try {
    await fetch("/page-result", {
      method: "POST",
      headers: { "Content-Type": "application/json" },
      body: JSON.stringify(result)
    });
  } catch (_) {}
  document.body.textContent = JSON.stringify(result);
})();
</script>
"#.to_owned()
}

} // verus!
