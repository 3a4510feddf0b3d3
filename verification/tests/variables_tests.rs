use game_of_life_reverse::variables::VariableManager;

#[test]
fn test_variable_creation() {
    let mut vm = VariableManager::new(3, 3, 2, true);
    let var1 = vm.cell_variable(0, 0, 0).unwrap();
    let var2 = vm.cell_variable(1, 1, 1).unwrap();
    assert_eq!(var1, 1);
    assert_eq!(var2, 2);
    let var1_again = vm.cell_variable(0, 0, 0).unwrap();
    assert_eq!(var1, var1_again);
}

#[test]
fn test_cell_variables() {
    let mut vm = VariableManager::new(2, 2, 2, false);
    let cell_var1 = vm.cell_variable(0, 0, 0).unwrap();
    let cell_var2 = vm.cell_variable(1, 1, 1).unwrap();
    assert!(cell_var1 > 0);
    assert!(cell_var2 > 0);
    assert_ne!(cell_var1, cell_var2);
}

#[test]
fn test_variable_bounds() {
    let mut vm = VariableManager::new(2, 2, 2, false);
    assert!(vm.cell_variable(0, 0, 0).is_ok());
    assert!(vm.cell_variable(1, 1, 1).is_ok());
    assert!(vm.cell_variable(2, 0, 0).is_err());
    assert!(vm.cell_variable(0, 2, 0).is_err());
    assert!(vm.cell_variable(0, 0, 2).is_err());
}

#[test]
fn test_all_variables_at_time() {
    let mut vm = VariableManager::new(2, 2, 2, false);
    let vars = vm.all_cell_variables_at_time(0).unwrap();
    assert_eq!(vars.len(), 4);
    let mut unique_vars = vars.clone();
    unique_vars.sort();
    unique_vars.dedup();
    assert_eq!(vars.len(), unique_vars.len());
}

#[test]
fn test_statistics() {
    let mut vm = VariableManager::new(2, 2, 2, false);
    vm.cell_variable(0, 0, 0).unwrap();
    vm.cell_variable(1, 1, 1).unwrap();
    let stats = vm.statistics();
    assert_eq!(stats.total_variables, 2);
    assert_eq!(stats.cell_variables, 2);
}
