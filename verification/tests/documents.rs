use yosys_netlist_json::{AttributeVal, BitVal, Netlist, SpecialBit};

#[test]
fn super_empty_json() {
    let result = Netlist::from_slice(
        br#"
            {}"#,
    )
    .unwrap();
    assert_eq!(result.creator, "");
    assert_eq!(result.modules.len(), 0);
}

#[test]
fn empty_json() {
    let result = Netlist::from_slice(
        br#"
            {
              "creator": "this is a test",
              "modules": {
              }
            }"#,
    )
    .unwrap();
    assert_eq!(result.creator, "this is a test");
    assert_eq!(result.modules.len(), 0);
}

#[test]
fn empty_json_2() {
    let result = Netlist::from_slice(
        br#"
            {
              "modules": {
              }
            }"#,
    )
    .unwrap();
    assert_eq!(result.creator, "");
    assert_eq!(result.modules.len(), 0);
}

#[test]
fn bit_values_test() {
    let result = Netlist::from_slice(
        br#"
            {
              "modules": {
                "mymodule": {
                  "cells": {
                    "mycell": {
                      "type": "celltype",
                      "connections": {
                        "IN": [ "x", 0, "z", 234, "1", "0" ]
                      }
                    }
                  }
                }
              }
            }"#,
    )
    .unwrap();
    assert_eq!(
        result
            .modules
            .get("mymodule")
            .unwrap()
            .cells
            .get("mycell")
            .unwrap()
            .connections
            .get("IN")
            .unwrap(),
        &vec![
            BitVal::S(SpecialBit::X),
            BitVal::N(0),
            BitVal::S(SpecialBit::Z),
            BitVal::N(234),
            BitVal::S(SpecialBit::_1),
            BitVal::S(SpecialBit::_0)
        ]
    );
}

#[test]
#[should_panic]
fn invalid_bit_value_test() {
    Netlist::from_slice(
        br#"
            {
              "modules": {
                "mymodule": {
                  "cells": {
                    "mycell": {
                      "type": "celltype",
                      "connections": {
                        "IN": [ "w" ]
                      }
                    }
                  }
                }
              }
            }"#,
    )
    .unwrap();
}

#[test]
fn attribute_value_test() {
    let result = Netlist::from_slice(
        br#"
            {
              "modules": {
                "mymodule": {
                  "cells": {
                    "mycell": {
                      "type": "celltype",
                      "parameters": {
                        "testparam": 123
                      },
                      "connections": {}
                    }
                  }
                }
              }
            }"#,
    )
    .unwrap();
    assert_eq!(
        result
            .modules
            .get("mymodule")
            .unwrap()
            .cells
            .get("mycell")
            .unwrap()
            .parameters
            .get("testparam")
            .unwrap(),
        &AttributeVal::N(123)
    );
}

#[test]
#[should_panic]
fn invalid_attribute_value_test() {
    Netlist::from_slice(
        br#"
            {
              "modules": {
                "mymodule": {
                  "cells": {
                    "mycell": {
                      "type": "celltype",
                      "parameters": {
                        "testparam": [123]
                      },
                      "connections": {}
                    }
                  }
                }
              }
            }"#,
    )
    .unwrap();
}

#[test]
fn integration_test() {
    let result = Netlist::from_slice(
        br#"{
  "creator": "Yosys 0.14+51 (git sha1 286caa09b, gcc 9.3.0-13 -fPIC -Os)",
  "modules": {
    "test": {
      "attributes": {
        "cells_not_processed": "00000000000000000000000000000001",
        "src": "test-for-json.v:1.1-12.10"
      },
      "parameter_default_values": {
        "TESTPARAM": "00000000000000001010010001010101"
      },
      "ports": {
        "a": {
          "direction": "input",
          "offset": 1,
          "bits": [ 2, 3, 4, 5, 6, 7, 8, 9 ]
        },
        "b": {
          "direction": "input",
          "upto": 1,
          "bits": [ 10, 11, 12, 13, 14, 15, 16, 17 ]
        },
        "o": {
          "direction": "output",
          "bits": [ 18, 19, 20, 21, 22, 23, 24, 25 ]
        }
      },
      "cells": {
        "$xor$test-for-json.v:10$1": {
          "hide_name": 1,
          "type": "$xor",
          "parameters": {
            "A_SIGNED": "00000000000000000000000000000000",
            "A_WIDTH": "00000000000000000000000000001000",
            "B_SIGNED": "00000000000000000000000000000000",
            "B_WIDTH": "00000000000000000000000000001000",
            "Y_WIDTH": "00000000000000000000000000001000"
          },
          "attributes": {
            "src": "test-for-json.v:10.12-10.17"
          },
          "port_directions": {
            "A": "input",
            "B": "input",
            "Y": "output"
          },
          "connections": {
            "A": [ 2, 3, 4, 5, 6, 7, 8, 9 ],
            "B": [ 10, 11, 12, 13, 14, 15, 16, 17 ],
            "Y": [ 18, 19, 20, 21, 22, 23, 24, 25 ]
          }
        }
      },
      "memories": {
        "testmemory": {
          "hide_name": 0,
          "attributes": {
            "src": "test-for-json.v:8.12-8.22"
          },
          "width": 8,
          "start_offset": 1,
          "size": 1111
        }
      },
      "netnames": {
        "$xor$test-for-json.v:10$1_Y": {
          "hide_name": 1,
          "bits": [ 18, 19, 20, 21, 22, 23, 24, 25 ],
          "attributes": {
            "src": "test-for-json.v:10.12-10.17"
          }
        },
        "a": {
          "hide_name": 0,
          "bits": [ 2, 3, 4, 5, 6, 7, 8, 9 ],
          "offset": 1,
          "attributes": {
            "src": "test-for-json.v:2.17-2.18"
          }
        },
        "b": {
          "hide_name": 0,
          "bits": [ 10, 11, 12, 13, 14, 15, 16, 17 ],
          "upto": 1,
          "attributes": {
            "src": "test-for-json.v:3.17-3.18"
          }
        },
        "o": {
          "hide_name": 0,
          "bits": [ 18, 19, 20, 21, 22, 23, 24, 25 ],
          "attributes": {
            "src": "test-for-json.v:4.18-4.19"
          }
        }
      }
    }
  }
}
"#,
    )
    .unwrap();

    assert_eq!(
        result.creator,
        "Yosys 0.14+51 (git sha1 286caa09b, gcc 9.3.0-13 -fPIC -Os)"
    );
    let mod_test = result.modules.get("test").unwrap();

    assert_eq!(
        mod_test
            .parameter_default_values
            .get("TESTPARAM")
            .unwrap()
            .to_number()
            .unwrap(),
        42069
    );

    assert_eq!(mod_test.ports.get("a").unwrap().offset, 1);
    assert_eq!(mod_test.ports.get("b").unwrap().upto, 1);
    assert_eq!(mod_test.ports.get("o").unwrap().offset, 0);
    assert_eq!(mod_test.ports.get("o").unwrap().upto, 0);

    assert_eq!(mod_test.memories.get("testmemory").unwrap().size, 1111);
}

#[test]
fn write_test() {
    let netlist = Netlist::new("integration test");
    let json = netlist.to_string().unwrap();

    assert_eq!(json, r#"{"creator":"integration test","modules":{}}"#);
}
