use range_fetch::block::Block;
use range_fetch::partition::split;

fn resource_of(len: usize) -> Vec<u8> {
    let mut bytes: Vec<u8> = Vec::with_capacity(len);
    let mut i: usize = 0;
    while i < len {
        bytes.push(((i * 31 + 7) % 251) as u8);
        i += 1;
    }
    bytes
}

fn fetch(resource: &[u8], block: &Block) -> Vec<u8> {
    let from: usize = (block.start as usize).min(resource.len());
    let to: usize = (block.end as usize + 1).min(resource.len());
    resource[from..to].to_vec()
}

fn write_at(file: &mut Vec<u8>, offset: usize, data: &[u8]) {
    if data.is_empty() {
        return;
    }
    if file.len() < offset + data.len() {
        file.resize(offset + data.len(), 0);
    }
    file[offset..offset + data.len()].copy_from_slice(data);
}

fn rebuild(resource: &[u8], thread: u8, order: &[usize]) -> Vec<u8> {
    let blocks: Vec<Block> = split(resource.len() as u64, thread).unwrap();
    let mut file: Vec<u8> = Vec::new();
    for index in order {
        let block = &blocks[*index];
        write_at(&mut file, block.start as usize, &fetch(resource, block));
    }
    file
}

#[test]
fn blocks_written_in_order_rebuild_the_resource() {
    let resource = resource_of(1000);
    assert_eq!(rebuild(&resource, 4, &[0, 1, 2, 3, 4]), resource);
}

#[test]
fn blocks_written_in_any_order_rebuild_the_resource() {
    let resource = resource_of(1000);
    assert_eq!(rebuild(&resource, 4, &[4, 3, 2, 1, 0]), resource);
    assert_eq!(rebuild(&resource, 4, &[2, 4, 0, 3, 1]), resource);
    assert_eq!(rebuild(&resource, 4, &[1, 0, 4, 2, 3]), resource);
    assert_eq!(rebuild(&resource, 4, &[3, 3, 0, 1, 4, 2, 0]), resource);
}

#[test]
fn uneven_blocks_rebuild_the_resource() {
    let resource = resource_of(103);
    assert_eq!(rebuild(&resource, 5, &[5, 0, 3, 1, 4, 2]), resource);
    let resource = resource_of(10);
    assert_eq!(rebuild(&resource, 3, &[3, 1, 0, 2]), resource);
    let resource = resource_of(1);
    assert_eq!(rebuild(&resource, 1, &[1, 0]), resource);
}

#[test]
fn a_missing_block_leaves_the_file_short_or_wrong() {
    let resource = resource_of(1000);
    assert_ne!(rebuild(&resource, 4, &[0, 1, 2, 3]), resource);
    assert_ne!(rebuild(&resource, 4, &[0, 1, 3, 4]), resource);
}
