use actflow::code::{JavascriptExecutor, PythonExecutor};

#[test]
fn test_extract_function_name() {
    assert_eq!(JavascriptExecutor::extract_javascript_function_name("function main() {}"), Some("main".to_string()));
    assert_eq!(
        JavascriptExecutor::extract_javascript_function_name("function processData({a}) {}"),
        Some("processData".to_string())
    );
    assert_eq!(
        JavascriptExecutor::extract_javascript_function_name("  function  _helper123 () {}"),
        Some("_helper123".to_string())
    );
    assert_eq!(JavascriptExecutor::extract_javascript_function_name("const x = 1;"), None);
}

#[test]
fn test_python_extract_function_name() {
    assert_eq!(PythonExecutor::extract_python_function_name("def main(): pass"), Some("main".to_string()));
    assert_eq!(
        PythonExecutor::extract_python_function_name("def process_data(params): pass"),
        Some("process_data".to_string())
    );
    assert_eq!(
        PythonExecutor::extract_python_function_name("  def  _helper123 (): pass"),
        Some("_helper123".to_string())
    );
    assert_eq!(PythonExecutor::extract_python_function_name("x = 1"), None);
}

#[test]
fn code_without_function_is_refused() {
    let err = JavascriptExecutor::entry_point("const x = 1;").unwrap_err().to_string();
    assert!(err.contains("No function found"));
    let err = PythonExecutor::entry_point("x = 1").unwrap_err().to_string();
    assert!(err.contains("No function found"));
    assert_eq!(JavascriptExecutor::entry_point("function f(a) {}").unwrap(), "f");
}

#[test]
fn first_definition_wins() {
    let code = "function first() {}\nfunction second() {}";
    assert_eq!(JavascriptExecutor::extract_javascript_function_name(code), Some("first".to_string()));
    assert_eq!(JavascriptExecutor::extract_javascript_function_name("function (x) {}"), None);
}
