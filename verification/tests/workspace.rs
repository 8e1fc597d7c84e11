use rmf_workcell_format::{ExportFormat, WorkspaceData};

#[test]
fn workcell_files_are_told_by_their_name() {
    let data = vec![1u8, 2, 3];
    assert_eq!(
        WorkspaceData::new("cell.workcell.json", data.clone()),
        Some(WorkspaceData::Workcell(data.clone()))
    );
    assert_eq!(
        WorkspaceData::new("workcell.json", data.clone()),
        Some(WorkspaceData::Workcell(data.clone()))
    );
    assert_eq!(
        WorkspaceData::new("robot.urdf", data.clone()),
        Some(WorkspaceData::WorkcellUrdf(data.clone()))
    );
    assert_eq!(
        WorkspaceData::new("urdf", data.clone()),
        Some(WorkspaceData::WorkcellUrdf(data.clone()))
    );
}

#[test]
fn other_files_are_not_recognized() {
    for name in ["", "cell.json", "robot.urdf.bak", "robot.URDF", "workcell.jso", "rdf"] {
        assert_eq!(WorkspaceData::new(name, vec![]), None, "{name}");
    }
}

#[test]
fn default_export_format() {
    assert_eq!(ExportFormat::default(), ExportFormat::Default);
}
