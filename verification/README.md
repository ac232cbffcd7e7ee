# slurm_monitor

The verified core of a desktop monitor for SLURM jobs on several clusters.

`src/` is the library, proved with Verus: the SLURM commands it issues
(`squeue`, `sacct`, `sinfo`, `sshare`, `sreport`, `sacctmgr`, `scontrol`,
`df`, quota tools), the parsers of their output, the change detection
between two queue snapshots, the resolution of jobs that left the queue,
one-shot escalation notices, the notification filter (state allow-list and
quiet hours), the bounded transition history, project usage and budgets,
disk-usage thresholds with hysteresis, and the connection back-off.

`app/` is the Tauri program around it: SSH sessions, the polling and
supervision loops, the settings and UI-state files, the tray, and the
commands the webview calls. It hands the library the text that the cluster
returned and performs what the library decides.

`tests/` runs the library on concrete inputs.
