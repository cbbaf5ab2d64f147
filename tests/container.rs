use alang::bytecode::{BytecodeFile, Chunk, BYTECODE_VERSION};
use alang::container::{open_container, seal_container, ContainerError};

#[test]
fn version_two_is_refused() {
    let bytes = vec![2u8, 0, 0, 0, 0, 0, 0, 0, 0, 0, 0, 0];
    assert_eq!(
        open_container(&bytes),
        Err(ContainerError::UnsupportedVersion { found: 2, expected: 1 })
    );
}

#[test]
fn any_other_version_is_refused_whatever_follows() {
    for v in [0u32, 2, 256, 0x0100_0001, u32::MAX] {
        for tail in [vec![], vec![1u8, 0, 0, 0], vec![9u8; 40]] {
            let mut bytes = v.to_le_bytes().to_vec();
            bytes.extend_from_slice(&tail);
            assert_eq!(
                open_container(&bytes),
                Err(ContainerError::UnsupportedVersion { found: v, expected: 1 })
            );
        }
    }
}

#[test]
fn sealed_body_opens_to_itself() {
    let body = vec![7u8, 0, 255, 3];
    let sealed = seal_container(&body);
    assert_eq!(sealed, vec![1u8, 0, 0, 0, 7, 0, 255, 3]);
    assert_eq!(open_container(&sealed), Ok(body));
    assert_eq!(open_container(&seal_container(&[])), Ok(vec![]));
}

#[test]
fn short_input_is_truncated() {
    assert_eq!(open_container(&[1u8, 0]), Err(ContainerError::Truncated { len: 2 }));
}

#[test]
fn file_carries_current_version() {
    let f = BytecodeFile::new(Chunk::new());
    assert_eq!(f.version, BYTECODE_VERSION);
    assert_eq!(BYTECODE_VERSION, 1);
}
