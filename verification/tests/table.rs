use idt8a3xxxx::check_addresses;
use idt8a3xxxx::check_names;
use idt8a3xxxx::modules;
use idt8a3xxxx::Contents;
use idt8a3xxxx::Module;
use idt8a3xxxx::Register;
use std::collections::HashSet;

#[test]
fn dump() {
    let modules = modules();
    println!("{:#x?}", modules);
}

#[test]
fn address_orthogonality() {
    let modules = modules();
    let mut seen = 0;

    for module in &modules {
        for i in 0..module.base.len() {
            let base = module.base[i];

            let name = if module.base.len() > 1 {
                format!("{}_{}", module.name, i)
            } else {
                format!("{}", module.name)
            };

            for register in &module.registers {
                let addr = base + register.offset;
                let limit = addr + register.contents.size() as u16;
                assert!(addr >= seen);
                println!(
                    "0x{:04x} - 0x{:04x}:  {}.{}",
                    addr,
                    limit - 1,
                    name,
                    register.name
                );
                seen = addr + register.contents.size() as u16;
            }
        }
    }
}

#[test]
fn register_orthogonality() {
    let mut regnames = HashSet::new();
    let modules = modules();

    for module in &modules {
        for register in &module.registers {
            match regnames.insert(register.name.clone()) {
                false => {
                    panic!("duplicate register {}", register.name);
                }
                true => {}
            }
        }
    }
}

fn reg(name: &str, offset: u16, contents: Contents) -> Register {
    Register {
        name: name.to_string(),
        offset,
        contents,
    }
}

#[test]
fn table_is_valid() {
    let modules = modules();
    assert!(check_addresses(&modules));
    assert!(check_names(&modules));
}

#[test]
fn detects_duplicate_name() {
    let table = vec![
        Module {
            name: "one".to_string(),
            base: vec![0x1000],
            registers: vec![reg("A", 0, Contents::Byte), reg("B", 1, Contents::Byte)],
        },
        Module {
            name: "two".to_string(),
            base: vec![0x2000],
            registers: vec![reg("B", 0, Contents::Byte)],
        },
    ];
    assert!(check_addresses(&table));
    assert!(!check_names(&table));
}

#[test]
fn detects_register_overlap() {
    let table = vec![Module {
        name: "one".to_string(),
        base: vec![0x1000],
        registers: vec![reg("A", 0, Contents::Word32), reg("B", 2, Contents::Byte)],
    }];
    assert!(check_names(&table));
    assert!(!check_addresses(&table));
}

#[test]
fn detects_instance_overlap() {
    let table = vec![Module {
        name: "one".to_string(),
        base: vec![0x1000, 0x1002],
        registers: vec![reg("A", 0, Contents::Word32)],
    }];
    assert!(check_names(&table));
    assert!(!check_addresses(&table));
}
