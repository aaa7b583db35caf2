use farming::{ChildContractType, MasterContract, RegistryError};

fn s(v: &str) -> String {
    v.to_string()
}

#[test]
fn test_new_and_list_child_contracts_empty() {
    let contract = MasterContract::new(s("alice"));
    let list = contract.list_child_contracts();
    assert_eq!(list.len(), 0, "Expected empty child contract list");
}

#[test]
fn test_register_child_contract_success() {
    let mut contract = MasterContract::new(s("alice"));
    contract
        .register_child_contract(&s("alice"), s("child1.testnet"), ChildContractType::Farming, 0)
        .unwrap();
    let list = contract.list_child_contracts();
    assert_eq!(list.len(), 1, "Expected one child contract registered");
    let (registered_account, metadata) = list.get(0).unwrap();
    assert_eq!(registered_account, "child1.testnet");
    assert_eq!(metadata.contract_type, ChildContractType::Farming);
}

#[test]
fn test_register_child_contract_non_owner() {
    let mut contract = MasterContract::new(s("alice"));
    let r = contract.register_child_contract(&s("bob"), s("child1.testnet"), ChildContractType::Farming, 0);
    assert_eq!(r, Err(RegistryError::NotOwner));
    assert!(contract.list_child_contracts().is_empty());
}

#[test]
fn test_unregister_child_contract_success() {
    let mut contract = MasterContract::new(s("alice"));
    contract
        .register_child_contract(&s("alice"), s("child1.testnet"), ChildContractType::Farming, 0)
        .unwrap();
    contract.unregister_child_contract(&s("alice"), &s("child1.testnet")).unwrap();
    let list = contract.list_child_contracts();
    assert_eq!(list.len(), 0, "Expected child contract list to be empty after unregistering");
}

#[test]
fn test_unregister_child_contract_non_owner() {
    let mut contract = MasterContract::new(s("alice"));
    contract
        .register_child_contract(&s("alice"), s("child1.testnet"), ChildContractType::Farming, 0)
        .unwrap();
    let r = contract.unregister_child_contract(&s("bob"), &s("child1.testnet"));
    assert_eq!(r, Err(RegistryError::NotOwner));
    assert_eq!(contract.list_child_contracts().len(), 1);
}

#[test]
fn test_deploy_child_contract_non_owner() {
    let contract = MasterContract::new(s("alice"));
    assert_eq!(contract.assert_owner(&s("bob")), Err(RegistryError::NotOwner));
    assert_eq!(contract.assert_owner(&s("alice")), Ok(()));
}

#[test]
fn register_replaces_and_unregister_swaps_last_in() {
    let mut contract = MasterContract::new(s("alice"));
    let owner = s("alice");
    contract.register_child_contract(&owner, s("a"), ChildContractType::Farming, 1).unwrap();
    contract.register_child_contract(&owner, s("b"), ChildContractType::NFT, 2).unwrap();
    contract.register_child_contract(&owner, s("c"), ChildContractType::LP, 3).unwrap();
    contract.register_child_contract(&owner, s("a"), ChildContractType::LP, 4).unwrap();
    let list = contract.list_child_contracts();
    assert_eq!(list.len(), 3);
    assert_eq!(list[0].0, "a");
    assert_eq!(list[0].1.contract_type, ChildContractType::LP);
    assert_eq!(list[0].1.deployed_at, 4);
    contract.unregister_child_contract(&owner, &s("a")).unwrap();
    let names: Vec<String> = contract.list_child_contracts().into_iter().map(|(n, _)| n).collect();
    assert_eq!(names, vec![s("c"), s("b")]);
    contract.unregister_child_contract(&owner, &s("zzz")).unwrap();
    assert_eq!(contract.list_child_contracts().len(), 2);
}

#[test]
fn deploy_callback_registers_on_success_only() {
    let mut contract = MasterContract::new(s("alice"));
    let r = contract.on_child_deploy(&s("alice"), false, s("x"), ChildContractType::Farming, 5);
    assert_eq!(r, Err(RegistryError::DeployFailed));
    assert!(contract.list_child_contracts().is_empty());
    contract.on_child_deploy(&s("alice"), true, s("x"), ChildContractType::Farming, 5).unwrap();
    assert_eq!(contract.list_child_contracts()[0].1.deployed_at, 5);
}
